//! The tile partitioner: divides an image's pixel dimensions into a
//! rows x columns grid of axis-aligned rectangular tiles, in row-major
//! order. Tile width and height are uniform, obtained by integer division;
//! the trailing `width % columns` and `height % rows` pixels of the source
//! fall outside every tile and stay covered by no tile at all.

use vstd::prelude::*;
use vstd::arithmetic::div_mod::{lemma_fundamental_div_mod, lemma_fundamental_div_mod_converse};
use vstd::arithmetic::mul::lemma_mul_inequality;

verus! {

/// One rectangular cell of the reveal grid, identified by the pixel offset
/// of its top-left corner.
#[derive(Clone, Copy, PartialEq, Eq, Structural, Debug)]
pub struct Tile {
    pub x: u32,
    pub y: u32,
}

/// The ordered collection of currently hidden tiles, together with the
/// uniform pixel size of every tile of the active partition.
#[derive(Clone, Debug)]
pub struct TileData {
    pub tiles: Vec<Tile>,
    pub tile_width: u32,
    pub tile_height: u32,
}

/// Uniform tile width of a partition of `width` pixels into `columns` columns.
pub open spec fn spec_tile_width(width: u32, columns: u8) -> int {
    width as int / columns as int
}

/// Uniform tile height of a partition of `height` pixels into `rows` rows.
pub open spec fn spec_tile_height(height: u32, rows: u8) -> int {
    height as int / rows as int
}

/// The tile at flat row-major index `i` of a partition.
pub open spec fn spec_tile(width: u32, height: u32, rows: u8, columns: u8, i: int) -> Tile {
    Tile {
        x: ((i % (columns as int)) * spec_tile_width(width, columns)) as u32,
        y: ((i / (columns as int)) * spec_tile_height(height, rows)) as u32,
    }
}

/// The full partition, in row-major order: row 0 left to right, then row 1,
/// and so on.
pub open spec fn spec_partition(width: u32, height: u32, rows: u8, columns: u8) -> Seq<Tile> {
    Seq::new(
        (rows as int * columns as int) as nat,
        |i: int| spec_tile(width, height, rows, columns, i),
    )
}

/// An in-range grid coordinate times the corresponding uniform tile size
/// never leaves the image: `k * size + size <= dim` for `0 <= k < parts`.
proof fn lemma_coord_in_bounds(dim: u32, parts: u8, k: int)
    requires
        parts >= 1,
        0 <= k < parts,
    ensures
        k * (dim as int / parts as int) + dim as int / parts as int <= dim as int,
        0 <= k * (dim as int / parts as int),
{
    let size = dim as int / parts as int;
    lemma_fundamental_div_mod(dim as int, parts as int);
    assert(size >= 0);
    lemma_mul_inequality(k + 1, parts as int, size);
    assert((k + 1) * size == k * size + size) by (nonlinear_arith);
    assert(parts as int * size == size * parts as int) by (nonlinear_arith);
    lemma_mul_inequality(0, k, size);
}

/// A flat index below `r * c` has quotient below `r` and nonnegative
/// quotient and remainder under division by `c`.
proof fn lemma_flat_index_bounds(i: int, c: int, r: int)
    requires
        c >= 1,
        r >= 1,
        0 <= i < r * c,
    ensures
        0 <= i / c < r,
        0 <= i % c < c,
        i == (i / c) * c + (i % c),
{
    lemma_fundamental_div_mod(i, c);
    assert(c * (i / c) == (i / c) * c) by (nonlinear_arith);
    if i / c < 0 {
        assert((i / c) * c <= -c) by (nonlinear_arith)
            requires i / c <= -1 && c >= 1;
        assert(false);
    }
    if i / c >= r {
        lemma_mul_inequality(r, i / c, c);
        assert(false);
    }
}

/// Divide `width` x `height` pixels into a `rows` x `columns` grid of
/// uniform tiles, in row-major order.
pub fn gen_tiles(width: u32, height: u32, rows: u8, columns: u8) -> (r: TileData)
    requires
        rows >= 1,
        columns >= 1,
    ensures
        r.tile_width == spec_tile_width(width, columns),
        r.tile_height == spec_tile_height(height, rows),
        r.tiles@ == spec_partition(width, height, rows, columns),
{
    let tile_height = height / (rows as u32);
    let tile_width = width / (columns as u32);

    let mut tiles: Vec<Tile> = Vec::new();
    let mut x: u8 = 0;
    while x < rows
        invariant
            x <= rows,
            rows >= 1,
            columns >= 1,
            tile_width == spec_tile_width(width, columns),
            tile_height == spec_tile_height(height, rows),
            tiles@.len() == x as int * columns as int,
            forall|i: int| 0 <= i < tiles@.len() ==>
                tiles@[i] == spec_tile(width, height, rows, columns, i),
        decreases rows - x,
    {
        proof {
            lemma_coord_in_bounds(height, rows, x as int);
        }
        let pos_y = (x as u32) * tile_height;
        let mut y: u8 = 0;
        while y < columns
            invariant
                y <= columns,
                x < rows,
                rows >= 1,
                columns >= 1,
                tile_width == spec_tile_width(width, columns),
                tile_height == spec_tile_height(height, rows),
                pos_y == x as int * tile_height as int,
                tiles@.len() == x as int * columns as int + y as int,
                forall|i: int| 0 <= i < tiles@.len() ==>
                    tiles@[i] == spec_tile(width, height, rows, columns, i),
            decreases columns - y,
        {
            proof {
                lemma_coord_in_bounds(width, columns, y as int);
            }
            let pos_x = (y as u32) * tile_width;
            let ghost idx = tiles@.len() as int;
            tiles.push(Tile { x: pos_x, y: pos_y });
            proof {
                lemma_fundamental_div_mod_converse(idx, columns as int, x as int, y as int);
                assert(tiles@[idx] == spec_tile(width, height, rows, columns, idx));
            }
            y = y + 1;
        }
        proof {
            assert((x as int + 1) * columns as int == x as int * columns as int + columns as int)
                by (nonlinear_arith);
        }
        x = x + 1;
    }

    proof {
        assert(tiles@ =~= spec_partition(width, height, rows, columns));
    }
    TileData { tiles, tile_width, tile_height }
}

/// Law: a partition holds exactly rows x columns tiles; the first tile sits
/// at the origin; the uniform tile width tiles the image width up to the
/// dropped remainder, so `tile_width * columns <= width`; and whenever that
/// remainder is smaller than one tile (`width % columns < tile_width`), one
/// more column would overshoot: `width < tile_width * (columns + 1)`. The
/// same bounds hold of the height against the rows.
pub proof fn lemma_partition_shape(width: u32, height: u32, rows: u8, columns: u8)
    requires
        rows >= 1,
        columns >= 1,
    ensures
        spec_partition(width, height, rows, columns).len() == rows as int * columns as int,
        spec_partition(width, height, rows, columns)[0] == (Tile { x: 0u32, y: 0u32 }),
        spec_tile_width(width, columns) * columns as int <= width as int,
        (width as int % columns as int) < spec_tile_width(width, columns)
            ==> (width as int) < spec_tile_width(width, columns) * (columns as int + 1),
        spec_tile_height(height, rows) * rows as int <= height as int,
        (height as int % rows as int) < spec_tile_height(height, rows)
            ==> (height as int) < spec_tile_height(height, rows) * (rows as int + 1),
{
    let tw = spec_tile_width(width, columns);
    let th = spec_tile_height(height, rows);
    lemma_fundamental_div_mod(width as int, columns as int);
    lemma_fundamental_div_mod(height as int, rows as int);
    assert(columns as int * tw == tw * columns as int) by (nonlinear_arith);
    assert(rows as int * th == th * rows as int) by (nonlinear_arith);
    assert(tw * (columns as int + 1) == tw * columns as int + tw) by (nonlinear_arith);
    assert(th * (rows as int + 1) == th * rows as int + th) by (nonlinear_arith);
    lemma_mul_inequality(1, rows as int, columns as int);
    assert(spec_partition(width, height, rows, columns).len() >= 1);
    assert(0int / columns as int == 0 && 0int % columns as int == 0) by (nonlinear_arith)
        requires columns as int >= 1;
    assert(spec_partition(width, height, rows, columns)[0]
        == spec_tile(width, height, rows, columns, 0));
    assert(spec_tile(width, height, rows, columns, 0) == (Tile { x: 0u32, y: 0u32 }));
}

/// Every tile of a partition fits inside the partitioned image: its offset
/// plus the uniform tile size stays at or below the image dimensions.
pub proof fn lemma_partition_tiles_fit(width: u32, height: u32, rows: u8, columns: u8)
    requires
        rows >= 1,
        columns >= 1,
    ensures
        forall|i: int| 0 <= i < spec_partition(width, height, rows, columns).len()
            ==> (#[trigger] spec_partition(width, height, rows, columns)[i]).x
                    + spec_tile_width(width, columns) <= width
                && spec_partition(width, height, rows, columns)[i].y
                    + spec_tile_height(height, rows) <= height,
{
    let s = spec_partition(width, height, rows, columns);
    let c = columns as int;
    assert forall|i: int| 0 <= i < s.len()
        implies (#[trigger] s[i]).x + spec_tile_width(width, columns) <= width
            && s[i].y + spec_tile_height(height, rows) <= height by {
        lemma_flat_index_bounds(i, c, rows as int);
        lemma_coord_in_bounds(width, columns, i % c);
        lemma_coord_in_bounds(height, rows, i / c);
    }
}

/// Law: when every tile is at least one pixel wide and one pixel tall
/// (`columns <= width` and `rows <= height`), the tiles of a partition are
/// pairwise distinct offsets. On a degenerate partition (more columns than
/// pixels of width, say) several tiles collapse onto one offset and
/// distinctness fails.
pub proof fn lemma_partition_no_duplicates(width: u32, height: u32, rows: u8, columns: u8)
    requires
        rows >= 1,
        columns >= 1,
        columns as int <= width as int,
        rows as int <= height as int,
    ensures
        spec_partition(width, height, rows, columns).no_duplicates(),
{
    let s = spec_partition(width, height, rows, columns);
    let tw = spec_tile_width(width, columns);
    let th = spec_tile_height(height, rows);
    let c = columns as int;
    lemma_fundamental_div_mod(width as int, columns as int);
    lemma_fundamental_div_mod(height as int, rows as int);
    assert(tw >= 1) by {
        if tw <= 0 {
            assert(columns as int * tw <= 0) by (nonlinear_arith)
                requires tw <= 0 && columns as int >= 1;
            assert(false);
        }
    }
    assert(th >= 1) by {
        if th <= 0 {
            assert(rows as int * th <= 0) by (nonlinear_arith)
                requires th <= 0 && rows as int >= 1;
            assert(false);
        }
    }
    assert forall|i: int, j: int| 0 <= i < s.len() && 0 <= j < s.len() && i != j
        implies s[i] != s[j] by {
        lemma_flat_index_bounds(i, c, rows as int);
        lemma_flat_index_bounds(j, c, rows as int);
        lemma_coord_in_bounds(width, columns, i % c);
        lemma_coord_in_bounds(width, columns, j % c);
        lemma_coord_in_bounds(height, rows, i / c);
        lemma_coord_in_bounds(height, rows, j / c);
        if i / c == j / c {
            assert(i % c != j % c);
            assert((i % c) * tw != (j % c) * tw) by (nonlinear_arith)
                requires i % c != j % c && tw >= 1;
        } else {
            assert((i / c) * th != (j / c) * th) by (nonlinear_arith)
                requires i / c != j / c && th >= 1;
        }
    }
}

} // verus!
