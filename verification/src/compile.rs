//! Map compilation: a parsed grid becomes a per-cell tile assignment and a
//! rasterized occluder buffer.
//!
//! Every wall cell is classified by the decision list of [`crate::tiles`];
//! every floor cell receives one of the interchangeable cosmetic floor
//! variants.  The occluder buffer covers the whole grid with one
//! `TILE_SIZE x TILE_SIZE` pixel block per cell: wall footprints hold the
//! solid marker, everything else the "far" sentinel.  The buffer is an
//! unsigned cost field: solid pixels are at cost zero, and the sentinel is
//! the largest representable value.

use vstd::prelude::*;

use rand::Rng;

use crate::grid::Cell;
use crate::grid::MapError;
use crate::grid::MapGrid;
use crate::grid::parse_grid;
use crate::grid::spec_grid_width;
use crate::grid::spec_map_ok;
use crate::grid::spec_rows;
use crate::grid::spec_trim;
use crate::tiles::TileVariant;
use crate::tiles::determine_wall_type;
use crate::tiles::spec_wall_type;
use crate::TILE_SIZE;

verus! {

use vstd::arithmetic::div_mod::lemma_fundamental_div_mod_converse;
use vstd::arithmetic::mul::lemma_mul_inequality;
use vstd::string::StringSliceAdditionalSpecFns;

/// How many interchangeable floor-tile variants exist.
pub const FLOOR_VARIANTS: u8 = 7;

/// Occluder value of a pixel inside a wall footprint: a seed at cost zero.
pub const SOLID_VALUE: u32 = 0;

/// Occluder value of every other pixel: the "far / no seed" sentinel.
pub const FAR_VALUE: u32 = 0xffff_ffff;

/// Relies on `rand::thread_rng` and `rand::Rng::gen_range`: a sample drawn
/// from a nonempty range lies within that range.
#[verifier::external_body]
fn random_floor_index() -> (r: u8)
    ensures
        r < FLOOR_VARIANTS,
{
    rand::thread_rng().gen_range(0..FLOOR_VARIANTS)
}

/// Whether position `(x, y)` of the grid holds a wall character.  Unlike a
/// neighbor observation, a position outside the grid is *not* a wall here.
pub open spec fn spec_is_wall_at(g: Seq<Seq<Cell>>, x: int, y: int) -> bool {
    0 <= y < g.len() && 0 <= x < g[y].len() && g[y][x] == Cell::Wall
}

/// The occluder value of pixel `(px, py)`: the value of the cell whose
/// footprint the pixel falls in.
pub open spec fn spec_raster_value(g: Seq<Seq<Cell>>, px: int, py: int) -> u32 {
    if spec_is_wall_at(g, px / TILE_SIZE as int, py / TILE_SIZE as int) {
        SOLID_VALUE
    } else {
        FAR_VALUE
    }
}

/// The rasterized occluder: a dense row-major image, one scalar per pixel.
pub struct OccluderBuffer {
    pub data: Vec<u32>,
    pub width: usize,
    pub height: usize,
}

impl OccluderBuffer {
    /// The buffer holds exactly one value per pixel.
    pub open spec fn wf(&self) -> bool {
        self.data@.len() == self.width * self.height
    }

    /// The value stored for pixel `(px, py)`.
    pub open spec fn value_at(&self, px: int, py: int) -> u32 {
        self.data@[py * self.width + px]
    }

    /// Reads the value of pixel `(px, py)`.
    pub fn get(&self, px: usize, py: usize) -> (v: u32)
        requires
            self.wf(),
            px < self.width,
            py < self.height,
        ensures
            v == self.value_at(px as int, py as int),
    {
        let n = self.data.len();
        proof {
            lemma_mul_inequality(py as int + 1, self.height as int, self.width as int);
            assert(py * self.width + px < self.width * self.height) by {
                assert((py + 1) * self.width == py * self.width + self.width) by (nonlinear_arith);
                assert((py as int + 1) * (self.width as int) <= (self.height as int) * (
                self.width as int));
                assert(self.height * self.width == self.width * self.height) by (nonlinear_arith);
            }
            assert(py * self.width + px < n);
        }
        self.data[py * self.width + px]
    }
}

/// Whether the rasterized image of the grid fits in memory: both pixel
/// dimensions and their product must be representable.
pub open spec fn spec_raster_fits(g: Seq<Seq<Cell>>) -> bool {
    &&& spec_grid_width(g) * TILE_SIZE <= usize::MAX
    &&& g.len() * TILE_SIZE <= usize::MAX
    &&& (spec_grid_width(g) * TILE_SIZE) * (g.len() * TILE_SIZE) <= usize::MAX
}

/// Whether `(x, y)` holds a wall cell.
fn wall_at(grid: &MapGrid, x: usize, y: usize) -> (r: bool)
    ensures
        r == spec_is_wall_at(grid@, x as int, y as int),
{
    if y < grid.rows.len() && x < grid.rows[y].len() {
        grid.rows[y][x] == Cell::Wall
    } else {
        false
    }
}

/// Fills the occluder buffer of a grid: every pixel of a wall cell's
/// `TILE_SIZE x TILE_SIZE` footprint holds [`SOLID_VALUE`], every other
/// pixel [`FAR_VALUE`].  The image is `width * TILE_SIZE` by
/// `height * TILE_SIZE` pixels; a grid whose image would overflow the
/// address space is rejected.
pub fn rasterize(grid: &MapGrid) -> (r: Result<OccluderBuffer, MapError>)
    ensures
        (r matches Ok(buf) ==> {
            &&& spec_raster_fits(grid@)
            &&& buf.wf()
            &&& buf.width == spec_grid_width(grid@) * TILE_SIZE
            &&& buf.height == grid@.len() * TILE_SIZE
            &&& forall|px: int, py: int|
                0 <= px < buf.width && 0 <= py < buf.height ==> buf.value_at(px, py)
                    == spec_raster_value(grid@, px, py)
        }),
        (r matches Err(e) ==> e == MapError::MapTooLarge && !spec_raster_fits(grid@)),
        r is Ok <==> spec_raster_fits(grid@),
{
    let w = grid.width();
    let h = grid.height();
    let width_px = match w.checked_mul(TILE_SIZE) {
        Some(v) => v,
        None => {
            return Err(MapError::MapTooLarge);
        },
    };
    let height_px = match h.checked_mul(TILE_SIZE) {
        Some(v) => v,
        None => {
            return Err(MapError::MapTooLarge);
        },
    };
    if width_px.checked_mul(height_px).is_none() {
        return Err(MapError::MapTooLarge);
    }

    let mut data: Vec<u32> = Vec::new();
    let mut py: usize = 0;
    while py < height_px
        invariant
            py <= height_px,
            width_px == spec_grid_width(grid@) * TILE_SIZE,
            height_px == grid@.len() * TILE_SIZE,
            data@.len() == py * width_px,
            forall|k: int|
                0 <= k < data@.len() ==> data@[k] == spec_raster_value(
                    grid@,
                    k % width_px as int,
                    k / width_px as int,
                ),
        decreases height_px - py,
    {
        let mut px: usize = 0;
        while px < width_px
            invariant
                py < height_px,
                px <= width_px,
                width_px == spec_grid_width(grid@) * TILE_SIZE,
                height_px == grid@.len() * TILE_SIZE,
                data@.len() == py * width_px + px,
                forall|k: int|
                    0 <= k < data@.len() ==> data@[k] == spec_raster_value(
                        grid@,
                        k % width_px as int,
                        k / width_px as int,
                    ),
            decreases width_px - px,
        {
            let v = if wall_at(grid, px / TILE_SIZE, py / TILE_SIZE) {
                SOLID_VALUE
            } else {
                FAR_VALUE
            };
            data.push(v);
            proof {
                lemma_fundamental_div_mod_converse(
                    py * width_px + px,
                    width_px as int,
                    py as int,
                    px as int,
                );
            }
            px = px + 1;
        }
        proof {
            assert((py + 1) * width_px == py * width_px + width_px) by (nonlinear_arith);
        }
        py = py + 1;
    }

    let buf = OccluderBuffer { data, width: width_px, height: height_px };
    proof {
        assert(buf.wf()) by {
            assert(height_px * width_px == width_px * height_px) by (nonlinear_arith);
        }
        assert forall|px: int, py2: int|
            0 <= px < buf.width && 0 <= py2 < buf.height implies buf.value_at(px, py2)
            == spec_raster_value(grid@, px, py2) by {
            lemma_fundamental_div_mod_converse(py2 * width_px + px, width_px as int, py2, px);
            lemma_mul_inequality(py2 + 1, height_px as int, width_px as int);
            assert((py2 + 1) * width_px == py2 * width_px + width_px) by (nonlinear_arith);
            assert(height_px * width_px == width_px * height_px) by (nonlinear_arith);
        }
    }
    Ok(buf)
}

/// The view of a vector of tile rows as a sequence of sequences.
pub open spec fn tiles_view(tiles: Seq<Vec<TileVariant>>) -> Seq<Seq<TileVariant>> {
    Seq::new(tiles.len(), |i: int| tiles[i]@)
}

/// The tile assignment is correct for the grid: one tile per occupied cell,
/// walls classified by the decision list, floors one of the cosmetic
/// variants.
pub open spec fn spec_tiles_ok(t: Seq<Seq<TileVariant>>, g: Seq<Seq<Cell>>) -> bool {
    &&& t.len() == g.len()
    &&& forall|y: int| 0 <= y < g.len() ==> t[y].len() == g[y].len()
    &&& forall|y: int, x: int|
        0 <= y < g.len() && 0 <= x < g[y].len() && g[y][x] == Cell::Wall ==> t[y][x]
            == TileVariant::Wall(spec_wall_type(g, x, y))
    &&& forall|y: int, x: int|
        0 <= y < g.len() && 0 <= x < g[y].len() && g[y][x] == Cell::Floor ==> (t[y][x] matches
        TileVariant::Floor(v) && v < FLOOR_VARIANTS)
}

/// Assigns a tile to every occupied cell of the grid: walls through the
/// neighborhood classifier, floors as an arbitrary cosmetic variant.
pub fn assign_tiles(grid: &MapGrid) -> (tiles: Vec<Vec<TileVariant>>)
    ensures
        spec_tiles_ok(tiles_view(tiles@), grid@),
{
    let mut tiles: Vec<Vec<TileVariant>> = Vec::new();
    let mut y: usize = 0;
    while y < grid.rows.len()
        invariant
            y <= grid@.len(),
            tiles@.len() == y,
            forall|yy: int| 0 <= yy < y ==> tiles_view(tiles@)[yy].len() == grid@[yy].len(),
            forall|yy: int, x: int|
                0 <= yy < y && 0 <= x < grid@[yy].len() && grid@[yy][x] == Cell::Wall
                    ==> tiles_view(tiles@)[yy][x] == TileVariant::Wall(spec_wall_type(grid@, x, yy)),
            forall|yy: int, x: int|
                0 <= yy < y && 0 <= x < grid@[yy].len() && grid@[yy][x] == Cell::Floor
                    ==> (tiles_view(tiles@)[yy][x] matches TileVariant::Floor(v) && v
                    < FLOOR_VARIANTS),
        decreases grid@.len() - y,
    {
        let row_len = grid.rows[y].len();
        let mut trow: Vec<TileVariant> = Vec::new();
        let mut x: usize = 0;
        while x < row_len
            invariant
                y < grid@.len(),
                row_len == grid@[y as int].len(),
                x <= row_len,
                trow@.len() == x,
                forall|xx: int|
                    0 <= xx < x && grid@[y as int][xx] == Cell::Wall ==> trow@[xx]
                        == TileVariant::Wall(spec_wall_type(grid@, xx, y as int)),
                forall|xx: int|
                    0 <= xx < x && grid@[y as int][xx] == Cell::Floor ==> (trow@[xx] matches
                    TileVariant::Floor(v) && v < FLOOR_VARIANTS),
            decreases row_len - x,
        {
            let t = match grid.rows[y][x] {
                Cell::Wall => TileVariant::Wall(determine_wall_type(grid, x, y)),
                Cell::Floor => TileVariant::Floor(random_floor_index()),
            };
            trow.push(t);
            x = x + 1;
        }
        tiles.push(trow);
        y = y + 1;
    }
    tiles
}

/// Everything one map compile produces.
pub struct CompiledMap {
    /// One tile per occupied grid cell, row-major with row 0 at the bottom.
    pub tiles: Vec<Vec<TileVariant>>,
    /// The rasterized occluder image.
    pub occluder: OccluderBuffer,
}

/// The relation between a compile result and the map text it came from.
/// Everything but the choice of cosmetic floor variants is a function of the
/// text alone.
pub open spec fn spec_compiled_from(cm: CompiledMap, bytes: Seq<u8>) -> bool {
    let g = spec_rows(bytes);
    &&& spec_tiles_ok(tiles_view(cm.tiles@), g)
    &&& cm.occluder.wf()
    &&& cm.occluder.width == spec_grid_width(g) * TILE_SIZE
    &&& cm.occluder.height == g.len() * TILE_SIZE
    &&& forall|px: int, py: int|
        0 <= px < cm.occluder.width && 0 <= py < cm.occluder.height ==> cm.occluder.value_at(
            px,
            py,
        ) == spec_raster_value(g, px, py)
}

/// The footprints tile the image exactly: every pixel of the
/// `TILE_SIZE x TILE_SIZE` block of cell `(cx, cy)` holds that one cell's
/// value - the solid marker for a wall cell, the far sentinel for a floor
/// cell or an unoccupied position - so footprints never overlap and never
/// leave a gap.
pub proof fn lemma_cell_footprint(g: Seq<Seq<Cell>>, cx: int, cy: int, tx: int, ty: int)
    requires
        0 <= tx < TILE_SIZE,
        0 <= ty < TILE_SIZE,
        0 <= cx,
        0 <= cy,
    ensures
        spec_raster_value(g, cx * TILE_SIZE + tx, cy * TILE_SIZE + ty) == (
        if spec_is_wall_at(g, cx, cy) {
            SOLID_VALUE
        } else {
            FAR_VALUE
        }),
{
    lemma_fundamental_div_mod_converse(cx * TILE_SIZE + tx, TILE_SIZE as int, cx, tx);
    lemma_fundamental_div_mod_converse(cy * TILE_SIZE + ty, TILE_SIZE as int, cy, ty);
}

/// Compiling one map text twice yields the same occluder buffer and the
/// same wall tiles; only the cosmetic floor-variant choice is free, and
/// both compiles still place *some* floor variant on every floor cell.
pub proof fn lemma_compile_deterministic(c1: CompiledMap, c2: CompiledMap, bytes: Seq<u8>)
    requires
        spec_compiled_from(c1, bytes),
        spec_compiled_from(c2, bytes),
    ensures
        c1.occluder.width == c2.occluder.width,
        c1.occluder.height == c2.occluder.height,
        c1.occluder.data@ == c2.occluder.data@,
        c1.tiles@.len() == c2.tiles@.len(),
        forall|y: int| 0 <= y < c1.tiles@.len() ==> c1.tiles@[y]@.len() == c2.tiles@[y]@.len(),
        forall|y: int, x: int|
            0 <= y < spec_rows(bytes).len() && 0 <= x < spec_rows(bytes)[y].len() && spec_rows(
                bytes,
            )[y][x] == Cell::Wall ==> c1.tiles@[y]@[x] == c2.tiles@[y]@[x],
        forall|y: int, x: int|
            0 <= y < spec_rows(bytes).len() && 0 <= x < spec_rows(bytes)[y].len() && spec_rows(
                bytes,
            )[y][x] == Cell::Floor ==> (c1.tiles@[y]@[x] matches TileVariant::Floor(v) && v
                < FLOOR_VARIANTS) && (c2.tiles@[y]@[x] matches TileVariant::Floor(v2) && v2
                < FLOOR_VARIANTS),
{
    let g = spec_rows(bytes);
    let w = c1.occluder.width as int;
    let h = c1.occluder.height as int;
    assert forall|y: int| 0 <= y < c1.tiles@.len() implies c1.tiles@[y]@.len()
        == c2.tiles@[y]@.len() by {
        assert(tiles_view(c1.tiles@)[y].len() == g[y].len());
        assert(tiles_view(c2.tiles@)[y].len() == g[y].len());
    }
    assert forall|y: int, x: int|
        0 <= y < g.len() && 0 <= x < g[y].len() && g[y][x] == Cell::Wall implies c1.tiles@[y]@[x]
        == c2.tiles@[y]@[x] by {
        assert(tiles_view(c1.tiles@)[y][x] == TileVariant::Wall(spec_wall_type(g, x, y)));
        assert(tiles_view(c2.tiles@)[y][x] == TileVariant::Wall(spec_wall_type(g, x, y)));
    }
    assert forall|y: int, x: int|
        0 <= y < g.len() && 0 <= x < g[y].len() && g[y][x] == Cell::Floor implies (
    c1.tiles@[y]@[x] matches TileVariant::Floor(v) && v < FLOOR_VARIANTS) && (
    c2.tiles@[y]@[x] matches TileVariant::Floor(v2) && v2 < FLOOR_VARIANTS) by {
        assert(tiles_view(c1.tiles@)[y][x] == c1.tiles@[y]@[x]);
        assert(tiles_view(c2.tiles@)[y][x] == c2.tiles@[y]@[x]);
    }
    assert(c1.occluder.data@ =~= c2.occluder.data@) by {
        assert(c1.occluder.data@.len() == w * h);
        assert(c2.occluder.data@.len() == w * h);
        if w > 0 {
            assert forall|k: int| 0 <= k < w * h implies c1.occluder.data@[k]
                == c2.occluder.data@[k] by {
                vstd::arithmetic::div_mod::lemma_fundamental_div_mod(k, w);
                vstd::arithmetic::div_mod::lemma_mod_bound(k, w);
                let px = k % w;
                let py = k / w;
                assert(0 <= py) by {
                    vstd::arithmetic::div_mod::lemma_div_pos_is_pos(k, w);
                }
                assert(py < h) by {
                    if py >= h {
                        lemma_mul_inequality(h, py, w);
                        assert(py * w == w * py) by (nonlinear_arith);
                    }
                }
                assert(py * w + px == k) by {
                    assert(py * w == w * py) by (nonlinear_arith);
                }
                assert(c1.occluder.value_at(px, py) == spec_raster_value(g, px, py));
                assert(c2.occluder.value_at(px, py) == spec_raster_value(g, px, py));
            }
        } else {
            assert(w * h == 0) by (nonlinear_arith)
                requires
                    w == 0,
            ;
        }
    }
}

/// Compiles a textual map: parses it, assigns a tile to every cell, and
/// rasterizes the occluder buffer.
pub fn compile_map(map: &str) -> (r: Result<CompiledMap, MapError>)
    ensures
        ({
            let bytes = map.spec_bytes();
            &&& (r matches Ok(cm) ==> spec_map_ok(bytes) && spec_raster_fits(spec_rows(bytes))
                && spec_compiled_from(cm, bytes))
            &&& (r matches Err(e) ==> match e {
                MapError::EmptyMap => spec_trim(bytes).len() == 0,
                MapError::EmptyRow => spec_trim(bytes).len() > 0 && exists|i: int|
                    0 <= i < spec_rows(bytes).len() && spec_rows(bytes)[i].len() == 0,
                MapError::MapTooLarge => spec_map_ok(bytes) && !spec_raster_fits(
                    spec_rows(bytes),
                ),
            })
            &&& ((spec_map_ok(bytes) && spec_raster_fits(spec_rows(bytes))) <==> r is Ok)
        }),
{
    let grid = match parse_grid(map) {
        Ok(g) => g,
        Err(e) => {
            return Err(e);
        },
    };
    let tiles = assign_tiles(&grid);
    let occluder = match rasterize(&grid) {
        Ok(o) => o,
        Err(e) => {
            return Err(e);
        },
    };
    Ok(CompiledMap { tiles, occluder })
}

} // verus!
