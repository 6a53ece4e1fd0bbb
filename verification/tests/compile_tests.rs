//! Tests of map parsing, tile assignment, and occluder rasterization.

use tile_sdf::compile::compile_map;
use tile_sdf::compile::FAR_VALUE;
use tile_sdf::compile::SOLID_VALUE;
use tile_sdf::grid::parse_grid;
use tile_sdf::grid::Cell;
use tile_sdf::grid::MapError;
use tile_sdf::tiles::TileVariant;
use tile_sdf::tiles::WallTile;
use tile_sdf::TILE_SIZE;

#[test]
fn three_by_three_room_scenario() {
    // A 3x3 map with one floor cell in the middle.  After reversal the
    // floor cell sits at grid (1, 1); each wall around it classifies per
    // the ordered decision list.
    let compiled = compile_map("###\n#.#\n###").unwrap();
    let tiles = &compiled.tiles;
    assert_eq!(tiles.len(), 3);
    for row in tiles.iter() {
        assert_eq!(row.len(), 3);
    }
    assert_eq!(tiles[0][0], TileVariant::Wall(WallTile::TopCrossEdgeRight));
    assert_eq!(tiles[0][1], TileVariant::Wall(WallTile::TopMid));
    assert_eq!(tiles[0][2], TileVariant::Wall(WallTile::TopCrossEdgeLeft));
    assert_eq!(tiles[1][0], TileVariant::Wall(WallTile::WallRight));
    assert_eq!(tiles[1][2], TileVariant::Wall(WallTile::WallLeft));
    assert_eq!(tiles[2][0], TileVariant::Wall(WallTile::WallRight));
    assert_eq!(tiles[2][1], TileVariant::Wall(WallTile::BottomMidBottom));
    assert_eq!(tiles[2][2], TileVariant::Wall(WallTile::WallLeft));
    match tiles[1][1] {
        TileVariant::Floor(v) => assert!(v < 7),
        other => panic!("expected a floor variant, got {:?}", other),
    }

    // The occluder is 144x144 pixels with one 48x48 "far" block centered at
    // the floor cell's footprint.
    let occ = &compiled.occluder;
    assert_eq!(occ.width, 144);
    assert_eq!(occ.height, 144);
    assert_eq!(occ.data.len(), 144 * 144);
    for py in 0..144 {
        for px in 0..144 {
            let expected = if (48..96).contains(&px) && (48..96).contains(&py) {
                FAR_VALUE
            } else {
                SOLID_VALUE
            };
            assert_eq!(occ.get(px, py), expected, "pixel ({}, {})", px, py);
        }
    }
}

#[test]
fn footprints_cover_the_image_exactly() {
    // Every pixel of each cell's footprint holds that cell's value.
    let compiled = compile_map("#.\n.#").unwrap();
    let occ = &compiled.occluder;
    assert_eq!(occ.width, 2 * TILE_SIZE);
    assert_eq!(occ.height, 2 * TILE_SIZE);
    assert_eq!(occ.data.len(), 4 * TILE_SIZE * TILE_SIZE);
    // Reversed rows: bottom row is ".#", top row is "#.".
    let wall_cells = [(1usize, 0usize), (0usize, 1usize)];
    for py in 0..occ.height {
        for px in 0..occ.width {
            let cell = (px / TILE_SIZE, py / TILE_SIZE);
            let expected = if wall_cells.contains(&cell) {
                SOLID_VALUE
            } else {
                FAR_VALUE
            };
            assert_eq!(occ.get(px, py), expected, "pixel ({}, {})", px, py);
        }
    }
}

#[test]
fn compiling_twice_is_deterministic() {
    let text = "####\n#..#\n#.##\n####";
    let a = compile_map(text).unwrap();
    let b = compile_map(text).unwrap();
    assert_eq!(a.occluder.width, b.occluder.width);
    assert_eq!(a.occluder.height, b.occluder.height);
    assert_eq!(a.occluder.data, b.occluder.data);
    assert_eq!(a.tiles.len(), b.tiles.len());
    for (ra, rb) in a.tiles.iter().zip(b.tiles.iter()) {
        assert_eq!(ra.len(), rb.len());
        for (ta, tb) in ra.iter().zip(rb.iter()) {
            match (ta, tb) {
                (TileVariant::Wall(wa), TileVariant::Wall(wb)) => assert_eq!(wa, wb),
                (TileVariant::Floor(va), TileVariant::Floor(vb)) => {
                    assert!(*va < 7 && *vb < 7);
                }
                _ => panic!("cell kind differs between compiles"),
            }
        }
    }
}

#[test]
fn surrounding_whitespace_is_trimmed() {
    let a = compile_map("\n###\n#.#\n###\n").unwrap();
    let b = compile_map("###\n#.#\n###").unwrap();
    assert_eq!(a.occluder.data, b.occluder.data);
}

/// The error a compile ends in; panics if it succeeded.
fn expect_rejected(text: &str) -> MapError {
    match compile_map(text) {
        Err(e) => e,
        Ok(_) => panic!("expected the map to be rejected"),
    }
}

#[test]
fn empty_text_is_rejected() {
    assert_eq!(expect_rejected(""), MapError::EmptyMap);
    assert_eq!(expect_rejected(" \n\t \n"), MapError::EmptyMap);
}

#[test]
fn empty_row_is_rejected() {
    assert_eq!(expect_rejected("##\n\n##"), MapError::EmptyRow);
}

#[test]
fn rows_come_out_reversed() {
    // The first source line is the top of the map: row 0 is the bottom.
    let g = parse_grid("#.\n..").unwrap();
    assert_eq!(g.rows.len(), 2);
    assert_eq!(g.rows[0], vec![Cell::Floor, Cell::Floor]);
    assert_eq!(g.rows[1], vec![Cell::Wall, Cell::Floor]);
}

#[test]
fn ragged_rows_rasterize_missing_cells_as_far() {
    // The middle source line is shorter; its missing cells carry no tile
    // and rasterize to the far sentinel.
    let compiled = compile_map("###\n#\n###").unwrap();
    assert_eq!(compiled.tiles[1].len(), 1);
    let occ = &compiled.occluder;
    assert_eq!(occ.width, 3 * TILE_SIZE);
    // Cell (1, 1) does not exist: far.
    assert_eq!(occ.get(TILE_SIZE + 10, TILE_SIZE + 10), FAR_VALUE);
    // Cell (0, 1) is a wall: solid.
    assert_eq!(occ.get(10, TILE_SIZE + 10), SOLID_VALUE);
}

#[test]
fn non_wall_bytes_are_floor() {
    let compiled = compile_map("ab\n#x").unwrap();
    for (coords, tile) in [((0, 1), &compiled.tiles[1][0]), ((1, 0), &compiled.tiles[0][1])] {
        match tile {
            TileVariant::Floor(v) => assert!(*v < 7),
            other => panic!("expected floor at {:?}, got {:?}", coords, other),
        }
    }
    match compiled.tiles[0][0] {
        TileVariant::Wall(_) => {}
        other => panic!("expected wall, got {:?}", other),
    }
}
