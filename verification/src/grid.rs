//! The grid-map representation: cells, parsing of map text into rows of
//! cells, and the errors a malformed map raises.
//!
//! The textual map uses `#` for a solid wall cell; every other byte is an
//! open floor cell.  Lines are split on newline and then reversed, so row 0
//! of the grid is the bottommost source line (a Y-up convention).

use vstd::prelude::*;

verus! {

use vstd::string::StringSliceAdditionalSpecFns;

/// One square of the grid: solid wall or open floor.
#[derive(Clone, Copy, Debug, PartialEq, Eq, Structural)]
pub enum Cell {
    Wall,
    Floor,
}

/// The byte that marks a wall cell in map text.
pub const WALL_BYTE: u8 = 35;

/// Classification of a single map byte: `#` is a wall, anything else floor.
pub open spec fn spec_cell_of_byte(b: u8) -> Cell {
    if b == WALL_BYTE {
        Cell::Wall
    } else {
        Cell::Floor
    }
}

/// Classifies one byte of map text.
pub fn cell_of_byte(b: u8) -> (c: Cell)
    ensures
        c == spec_cell_of_byte(b),
{
    if b == WALL_BYTE {
        Cell::Wall
    } else {
        Cell::Floor
    }
}

/// The parsed grid: one row of cells per map line, row 0 at the bottom.
/// Rows may be ragged; a position past the end of its row is treated as
/// out of bounds wherever the grid is read.
pub struct MapGrid {
    pub rows: Vec<Vec<Cell>>,
}

impl View for MapGrid {
    type V = Seq<Seq<Cell>>;

    open spec fn view(&self) -> Seq<Seq<Cell>> {
        Seq::new(self.rows@.len(), |i: int| self.rows@[i]@)
    }
}

impl MapGrid {
    /// Number of rows.
    pub fn height(&self) -> (h: usize)
        ensures
            h == self@.len(),
    {
        self.rows.len()
    }

    /// Length of the longest row: the grid's width.
    pub fn width(&self) -> (w: usize)
        ensures
            w == spec_grid_width(self@),
    {
        let mut w: usize = 0;
        let mut y: usize = 0;
        while y < self.rows.len()
            invariant
                y <= self@.len(),
                w == spec_width_upto(self@, y as int),
            decreases self@.len() - y,
        {
            if self.rows[y].len() > w {
                w = self.rows[y].len();
            }
            y = y + 1;
        }
        w
    }
}

/// The byte that separates map lines.
pub const NEWLINE_BYTE: u8 = 10;

/// Whitespace bytes stripped from the ends of the map text before it is
/// split into lines: space, tab, newline, carriage return.
pub open spec fn is_map_space(b: u8) -> bool {
    b == 32 || b == 9 || b == 10 || b == 13
}

/// The text with leading whitespace removed.
pub open spec fn spec_trim_front(s: Seq<u8>) -> Seq<u8>
    decreases s.len(),
{
    if s.len() > 0 && is_map_space(s[0]) {
        spec_trim_front(s.drop_first())
    } else {
        s
    }
}

/// The text with trailing whitespace removed.
pub open spec fn spec_trim_back(s: Seq<u8>) -> Seq<u8>
    decreases s.len(),
{
    if s.len() > 0 && is_map_space(s.last()) {
        spec_trim_back(s.drop_last())
    } else {
        s
    }
}

/// The text with whitespace removed from both ends.
pub open spec fn spec_trim(s: Seq<u8>) -> Seq<u8> {
    spec_trim_back(spec_trim_front(s))
}

/// The rows of cells read from trimmed text, in source order: split on
/// newline, each byte classified by [`spec_cell_of_byte`].  Text of length
/// zero yields one empty row, as splitting does.
pub open spec fn spec_raw_rows(s: Seq<u8>) -> Seq<Seq<Cell>>
    decreases s.len(),
{
    if s.len() == 0 {
        seq![Seq::<Cell>::empty()]
    } else if s[0] == NEWLINE_BYTE {
        seq![Seq::<Cell>::empty()] + spec_raw_rows(s.drop_first())
    } else {
        let rest = spec_raw_rows(s.drop_first());
        seq![seq![spec_cell_of_byte(s[0])] + rest[0]] + rest.drop_first()
    }
}

/// The grid rows a map text denotes: trimmed, split on newline, classified,
/// and reversed so row 0 is the bottommost source line.
pub open spec fn spec_rows(s: Seq<u8>) -> Seq<Seq<Cell>> {
    spec_raw_rows(spec_trim(s)).reverse()
}

/// A well-formed map text: nonempty once trimmed, and with no empty row.
pub open spec fn spec_map_ok(s: Seq<u8>) -> bool {
    &&& spec_trim(s).len() > 0
    &&& forall|i: int| 0 <= i < spec_rows(s).len() ==> spec_rows(s)[i].len() > 0
}

/// The view of a vector of rows as a sequence of sequences.
pub open spec fn rows_view(rows: Seq<Vec<Cell>>) -> Seq<Seq<Cell>> {
    Seq::new(rows.len(), |i: int| rows[i]@)
}

/// Why a map text was rejected.
#[derive(Clone, Copy, Debug, PartialEq, Eq, Structural)]
pub enum MapError {
    /// The text holds nothing but whitespace: no grid dimensions exist.
    EmptyMap,
    /// Some line of the text is empty: a zero-width row.
    EmptyRow,
    /// The rasterized buffer would not fit in memory.
    MapTooLarge,
}

/// Splitting text yields at least one row.
proof fn lemma_raw_rows_len(s: Seq<u8>)
    ensures
        spec_raw_rows(s).len() >= 1,
    decreases s.len(),
{
    if s.len() != 0 {
        lemma_raw_rows_len(s.drop_first());
    }
}

/// Reversing a sequence with its head removed: the head lands at the end.
proof fn lemma_cons_reverse<A>(e: A, t: Seq<A>)
    ensures
        (seq![e] + t).reverse() =~= t.reverse().push(e),
{
}

/// The longest row length among the first `n` rows.
pub open spec fn spec_width_upto(g: Seq<Seq<Cell>>, n: int) -> int
    decreases n,
{
    if n <= 0 {
        0
    } else if g[n - 1].len() > spec_width_upto(g, n - 1) {
        g[n - 1].len() as int
    } else {
        spec_width_upto(g, n - 1)
    }
}

/// The grid's width: the length of its longest row.
pub open spec fn spec_grid_width(g: Seq<Seq<Cell>>) -> int {
    spec_width_upto(g, g.len() as int)
}

/// Any map text denotes at least one row.
pub proof fn lemma_rows_count(s: Seq<u8>)
    ensures
        spec_rows(s).len() >= 1,
{
    lemma_raw_rows_len(spec_trim(s));
}

/// A width is never negative, and no row is longer than it.
pub proof fn lemma_grid_width_bounds(g: Seq<Seq<Cell>>, n: int)
    requires
        n <= g.len(),
    ensures
        spec_width_upto(g, n) >= 0,
        forall|y: int| 0 <= y < n ==> g[y].len() <= spec_width_upto(g, n),
    decreases n,
{
    if n > 0 {
        lemma_grid_width_bounds(g, n - 1);
    }
}

/// Parses a textual map into a grid of cells.
///
/// The text is trimmed of surrounding whitespace, split on newline, and the
/// lines are reversed so row 0 of the grid is the bottommost source line.
/// `#` becomes a wall cell, every other byte a floor cell.  A text that is
/// all whitespace is rejected as [`MapError::EmptyMap`], one with an empty
/// line as [`MapError::EmptyRow`].
pub fn parse_grid(map: &str) -> (r: Result<MapGrid, MapError>)
    ensures
        ({
            let bytes = map.spec_bytes();
            &&& (r matches Ok(g) ==> spec_map_ok(bytes) && g@ == spec_rows(bytes))
            &&& (r matches Err(e) ==> match e {
                MapError::EmptyMap => spec_trim(bytes).len() == 0,
                MapError::EmptyRow => spec_trim(bytes).len() > 0 && exists|i: int|
                    0 <= i < spec_rows(bytes).len() && spec_rows(bytes)[i].len() == 0,
                MapError::MapTooLarge => false,
            })
            &&& (spec_map_ok(bytes) ==> r is Ok)
        }),
{
    let bytes: &[u8] = map.as_bytes();
    let n = bytes.len();

    // Trim leading whitespace.
    let mut lo: usize = 0;
    proof {
        assert(bytes@.skip(0) =~= bytes@);
    }
    while lo < n && is_space(bytes[lo])
        invariant
            0 <= lo <= n == bytes@.len(),
            spec_trim_front(bytes@) == spec_trim_front(bytes@.skip(lo as int)),
        decreases n - lo,
    {
        proof {
            assert(bytes@.skip(lo as int).drop_first() =~= bytes@.skip(lo as int + 1));
        }
        lo = lo + 1;
    }
    proof {
        assert(spec_trim_front(bytes@) =~= bytes@.skip(lo as int));
    }

    // Trim trailing whitespace of what remains.
    let mut hi: usize = n;
    while hi > lo && is_space(bytes[hi - 1])
        invariant
            lo <= hi <= n == bytes@.len(),
            spec_trim_back(bytes@.skip(lo as int)) == spec_trim_back(
                bytes@.subrange(lo as int, hi as int),
            ),
        decreases hi,
    {
        proof {
            assert(bytes@.subrange(lo as int, hi as int).drop_last() =~= bytes@.subrange(
                lo as int,
                hi as int - 1,
            ));
        }
        hi = hi - 1;
    }
    proof {
        assert(bytes@.skip(lo as int) =~= bytes@.subrange(lo as int, bytes@.len() as int));
        assert(spec_trim(bytes@) =~= bytes@.subrange(lo as int, hi as int));
    }

    if lo == hi {
        proof {
            assert(spec_trim(bytes@).len() == 0);
        }
        return Err(MapError::EmptyMap);
    }

    // Build the rows from the back of the trimmed text, so that the grid
    // comes out with its lines reversed: row 0 is the bottommost line.
    let mut rows: Vec<Vec<Cell>> = Vec::new();
    rows.push(Vec::new());
    proof {
        assert(rows_view(rows@) =~= spec_raw_rows(
            bytes@.subrange(hi as int, hi as int),
        ).reverse());
    }
    let mut i: usize = hi;
    while i > lo
        invariant
            lo <= i <= hi <= bytes@.len(),
            rows@.len() >= 1,
            rows_view(rows@) == spec_raw_rows(bytes@.subrange(i as int, hi as int)).reverse(),
        decreases i,
    {
        i = i - 1;
        let b = bytes[i];
        let ghost suffix = bytes@.subrange(i as int, hi as int);
        let ghost rest = spec_raw_rows(bytes@.subrange(i as int + 1, hi as int));
        proof {
            assert(suffix.drop_first() =~= bytes@.subrange(i as int + 1, hi as int));
            lemma_raw_rows_len(suffix.drop_first());
        }
        if b == NEWLINE_BYTE {
            rows.push(Vec::new());
            proof {
                lemma_cons_reverse(Seq::<Cell>::empty(), rest);
                assert(rows_view(rows@) =~= spec_raw_rows(suffix).reverse());
            }
        } else {
            let ghost first = seq![spec_cell_of_byte(b)] + rest[0];
            proof {
                assert(spec_raw_rows(suffix) =~= seq![first] + rest.drop_first());
                lemma_cons_reverse(first, rest.drop_first());
                assert(rest =~= seq![rest[0]] + rest.drop_first());
                lemma_cons_reverse(rest[0], rest.drop_first());
                assert(rest.reverse() == rest.drop_first().reverse().push(rest[0]));
                assert(rest.reverse()[rest.len() - 1] == rest[0]);
                assert(rows@[rows@.len() - 1]@ == rest[0]);
            }
            let ghost pre = rows@;
            let mut row = rows.pop().unwrap();
            row.insert(0, cell_of_byte(b));
            rows.push(row);
            proof {
                assert(rows@[rows@.len() - 1]@ =~= first);
                let target = rest.drop_first().reverse().push(first);
                assert(spec_raw_rows(suffix).reverse() == target);
                assert(rows@.len() == target.len());
                assert forall|k: int| 0 <= k < rows@.len() - 1 implies rows@[k]@ == target[k] by {
                    assert(rows@[k] == pre[k]);
                    assert(rows_view(pre)[k] == pre[k]@);
                    assert(rows_view(pre)[k] == rest.reverse()[k]);
                    assert(rest.reverse()[k] == rest.drop_first().reverse().push(rest[0])[k]);
                }
                assert(rows_view(rows@) =~= spec_raw_rows(suffix).reverse());
            }
        }
    }
    proof {
        assert(rows_view(rows@) == spec_rows(bytes@));
    }

    // Reject zero-width rows.
    let mut y: usize = 0;
    while y < rows.len()
        invariant
            0 <= y <= rows@.len(),
            bytes@ == map.spec_bytes(),
            spec_trim(bytes@).len() > 0,
            rows_view(rows@) == spec_rows(bytes@),
            forall|k: int| 0 <= k < y ==> rows_view(rows@)[k].len() > 0,
        decreases rows@.len() - y,
    {
        if rows[y].len() == 0 {
            proof {
                assert(spec_trim(map.spec_bytes()).len() > 0);
                assert((y as int) < spec_rows(map.spec_bytes()).len());
                assert(spec_rows(map.spec_bytes())[y as int].len() == 0);
            }
            return Err(MapError::EmptyRow);
        }
        y = y + 1;
    }

    Ok(MapGrid { rows })
}

/// Whether a byte counts as surrounding whitespace.
fn is_space(b: u8) -> (r: bool)
    ensures
        r == is_map_space(b),
{
    b == 32 || b == 9 || b == 10 || b == 13
}

} // verus!
