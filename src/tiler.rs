use vstd::arithmetic::div_mod::{lemma_fundamental_div_mod, lemma_fundamental_div_mod_converse};
use crate::raster::{copy_rows, rows_fit, rows_of, RasterImage};
use vstd::prelude::*;

verus! {

/// An axis-aligned rectangle of source pixels: columns `x .. x + w`, rows
/// `y .. y + h`.
#[derive(Clone, Copy, Debug, PartialEq, Eq, Structural)]
pub struct TileRect {
    pub x: u32,
    pub y: u32,
    pub w: u32,
    pub h: u32,
}

/// `a / d` rounded up.
pub open spec fn ceil_div(a: int, d: int) -> int {
    (a + d - 1) / d
}

pub open spec fn min_int(a: int, b: int) -> int {
    if a <= b {
        a
    } else {
        b
    }
}

/// Whether pixel `(px, py)` lies inside a `width` by `height` image.
pub open spec fn in_image(width: int, height: int, px: int, py: int) -> bool {
    0 <= px < width && 0 <= py < height
}

/// Whether pixel `(px, py)` lies inside `t`.
pub open spec fn covers(t: TileRect, px: int, py: int) -> bool {
    t.x <= px < t.x + t.w && t.y <= py < t.y + t.h
}

/// The tile in grid row `row` and column `col` of a `width` by `height` image
/// cut with step `limit`: it starts at `(col * limit, row * limit)` and is
/// clipped to the image, never padded.
pub open spec fn is_tile_at(t: TileRect, width: int, height: int, limit: int, row: int, col: int) -> bool {
    &&& t.x == col * limit
    &&& t.y == row * limit
    &&& t.w == min_int(limit, width - col * limit)
    &&& t.h == min_int(limit, height - row * limit)
}

/// `tiles` is the row-major grid of tiles of a `width` by `height` image with
/// tile limit `limit`.
pub open spec fn is_tile_grid(tiles: Seq<TileRect>, width: int, height: int, limit: int) -> bool {
    let cols = ceil_div(width, limit);
    let rows = ceil_div(height, limit);
    &&& tiles.len() == rows * cols
    &&& forall|row: int, col: int|
        0 <= row < rows && 0 <= col < cols ==> #[trigger] is_tile_at(
            tiles[row * cols + col],
            width,
            height,
            limit,
            row,
            col,
        )
}

/// `n` steps of `d` stay below `a` exactly when `n` is under `a / d` rounded up.
proof fn lemma_steps_below(n: int, a: int, d: int)
    requires
        n >= 0,
        a >= 0,
        d > 0,
    ensures
        n * d < a <==> n < ceil_div(a, d),
{
    let q = ceil_div(a, d);
    lemma_fundamental_div_mod(a + d - 1, d);
    let r = (a + d - 1) % d;
    assert(0 <= r < d);
    assert(a + d - 1 == d * q + r);
    if n < q {
        assert(n * d <= (q - 1) * d) by (nonlinear_arith)
            requires n <= q - 1, d > 0;
        assert((q - 1) * d == d * q - d) by (nonlinear_arith);
    } else {
        assert(n * d >= q * d) by (nonlinear_arith)
            requires n >= q, d > 0;
        assert(q * d == d * q) by (nonlinear_arith);
    }
}

/// Splits a grid index into its row and column.
proof fn lemma_index_split(k: int, rows: int, cols: int)
    requires
        0 <= k < rows * cols,
        cols > 0,
    ensures
        0 <= k / cols < rows,
        0 <= k % cols < cols,
        k == (k / cols) * cols + k % cols,
{
    lemma_fundamental_div_mod(k, cols);
    assert((k / cols) * cols == cols * (k / cols)) by (nonlinear_arith);
    if k / cols >= rows {
        assert((k / cols) * cols >= rows * cols) by (nonlinear_arith)
            requires k / cols >= rows, cols > 0;
    }
    if k / cols < 0 {
        assert((k / cols) * cols <= -cols) by (nonlinear_arith)
            requires k / cols < 0, cols > 0;
    }
}

/// A row and column name one grid index, and it names them back.
proof fn lemma_index_join(row: int, col: int, rows: int, cols: int)
    requires
        0 <= row < rows,
        0 <= col < cols,
    ensures
        0 <= row * cols + col < rows * cols,
        (row * cols + col) / cols == row,
        (row * cols + col) % cols == col,
{
    lemma_fundamental_div_mod_converse(row * cols + col, cols, row, col);
    assert(row * cols + col < rows * cols) by (nonlinear_arith)
        requires row < rows, col < cols, 0 <= row, 0 <= col;
    assert(0 <= row * cols) by (nonlinear_arith)
        requires 0 <= row, 0 <= col, col < cols;
}

/// A tile of grid cell `(row, col)` that holds pixel `(px, py)` lies in that
/// pixel's cell.
proof fn lemma_cell_of_pixel(t: TileRect, width: int, height: int, limit: int, row: int, col: int, px: int, py: int)
    requires
        limit > 0,
        row >= 0,
        col >= 0,
        is_tile_at(t, width, height, limit, row, col),
        covers(t, px, py),
    ensures
        row == py / limit,
        col == px / limit,
{
    lemma_fundamental_div_mod_converse(py, limit, row, py - row * limit);
    lemma_fundamental_div_mod_converse(px, limit, col, px - col * limit);
}

/// The tiles of an image partition it: each tile is a non-empty rectangle of
/// at most `limit` by `limit` pixels inside `[0, width) x [0, height)`, every
/// pixel of the image lies in some tile, and no pixel lies in two tiles.
pub proof fn lemma_tiles_partition_image(tiles: Seq<TileRect>, width: int, height: int, limit: int)
    requires
        width >= 0,
        height >= 0,
        limit > 0,
        is_tile_grid(tiles, width, height, limit),
    ensures
        forall|k: int|
            0 <= k < tiles.len() ==> {
                let t = #[trigger] tiles[k];
                &&& 0 < t.w <= limit
                &&& 0 < t.h <= limit
                &&& t.x + t.w <= width
                &&& t.y + t.h <= height
            },
        forall|px: int, py: int|
            #[trigger] in_image(width, height, px, py) ==> exists|k: int|
                0 <= k < tiles.len() && #[trigger] covers(tiles[k], px, py),
        forall|k1: int, k2: int, px: int, py: int|
            0 <= k1 < tiles.len() && 0 <= k2 < tiles.len() && #[trigger] covers(tiles[k1], px, py)
                && #[trigger] covers(tiles[k2], px, py) ==> k1 == k2,
{
    let cols = ceil_div(width, limit);
    let rows = ceil_div(height, limit);
    assert(cols >= 0 && rows >= 0) by {
        lemma_fundamental_div_mod(width + limit - 1, limit);
        lemma_fundamental_div_mod(height + limit - 1, limit);
        if cols < 0 {
            assert(limit * cols <= -limit) by (nonlinear_arith)
                requires cols < 0, limit > 0;
        }
        if rows < 0 {
            assert(limit * rows <= -limit) by (nonlinear_arith)
                requires rows < 0, limit > 0;
        }
    }
    assert(tiles.len() > 0 ==> cols > 0) by (nonlinear_arith)
        requires tiles.len() == rows * cols, cols >= 0, rows >= 0;
    assert forall|k: int| 0 <= k < tiles.len() implies {
        let t = #[trigger] tiles[k];
        &&& 0 < t.w <= limit
        &&& 0 < t.h <= limit
        &&& t.x + t.w <= width
        &&& t.y + t.h <= height
    } by {
        lemma_index_split(k, rows, cols);
        let row = k / cols;
        let col = k % cols;
        assert(is_tile_at(tiles[row * cols + col], width, height, limit, row, col));
        lemma_steps_below(row, height, limit);
        lemma_steps_below(col, width, limit);
    }
    assert forall|px: int, py: int| #[trigger] in_image(width, height, px, py) implies exists|k: int|
        0 <= k < tiles.len() && #[trigger] covers(tiles[k], px, py) by {
        lemma_fundamental_div_mod(px, limit);
        lemma_fundamental_div_mod(py, limit);
        let row = py / limit;
        let col = px / limit;
        assert(row * limit <= py && col * limit <= px) by (nonlinear_arith)
            requires py == limit * row + py % limit, px == limit * col + px % limit,
                py % limit >= 0, px % limit >= 0;
        assert(row >= 0 && col >= 0) by (nonlinear_arith)
            requires py == limit * row + py % limit, px == limit * col + px % limit,
                py % limit < limit, px % limit < limit, px >= 0, py >= 0, limit > 0;
        lemma_steps_below(row, height, limit);
        lemma_steps_below(col, width, limit);
        lemma_index_join(row, col, rows, cols);
        let k = row * cols + col;
        assert(is_tile_at(tiles[k], width, height, limit, row, col));
        assert(covers(tiles[k], px, py));
    }
    assert forall|k1: int, k2: int, px: int, py: int|
        0 <= k1 < tiles.len() && 0 <= k2 < tiles.len() && #[trigger] covers(tiles[k1], px, py)
            && #[trigger] covers(tiles[k2], px, py) implies k1 == k2 by {
        lemma_index_split(k1, rows, cols);
        lemma_index_split(k2, rows, cols);
        assert(is_tile_at(tiles[(k1 / cols) * cols + k1 % cols], width, height, limit, k1 / cols, k1 % cols));
        assert(is_tile_at(tiles[(k2 / cols) * cols + k2 % cols], width, height, limit, k2 / cols, k2 % cols));
        lemma_cell_of_pixel(tiles[k1], width, height, limit, k1 / cols, k1 % cols, px, py);
        lemma_cell_of_pixel(tiles[k2], width, height, limit, k2 / cols, k2 % cols, px, py);
    }
}

/// Number of tiles of a `width` by `height` image cut with tile limit `limit`.
pub open spec fn spec_tile_count(width: int, height: int, limit: int) -> int {
    ceil_div(width, limit) * ceil_div(height, limit)
}

/// `a / d` rounded up, computed without overflow.
fn ceil_div_u32(a: u32, d: u32) -> (r: u64)
    requires
        d > 0,
    ensures
        r == ceil_div(a as int, d as int),
        r <= a,
{
    let r: u64 = ((a as u64) + (d as u64) - 1) / (d as u64);
    proof {
        lemma_fundamental_div_mod(a + d - 1, d as int);
        if r > a {
            assert(d * r >= d * (a + 1)) by (nonlinear_arith)
                requires r >= a + 1, d > 0;
            assert(d * (a + 1) == d * a + d) by (nonlinear_arith);
            assert(d * a >= a) by (nonlinear_arith)
                requires d >= 1, a >= 0;
        }
    }
    r
}

/// The number of tiles of a `width` by `height` image: `ceil(width / limit)`
/// columns times `ceil(height / limit)` rows.
pub fn tile_count(width: u32, height: u32, limit: u32) -> (r: u64)
    requires
        limit > 0,
    ensures
        r == spec_tile_count(width as int, height as int, limit as int),
{
    let cols = ceil_div_u32(width, limit);
    let rows = ceil_div_u32(height, limit);
    proof {
        assert(cols * rows <= 0xffff_ffffu64 * 0xffff_ffffu64) by (nonlinear_arith)
            requires cols <= 0xffff_ffffu64, rows <= 0xffff_ffffu64;
    }
    cols * rows
}

/// The clipped tile of one grid cell, given its origin on each axis.
fn tile_from_origin(width: u32, height: u32, limit: u32, x: u32, y: u32) -> (t: TileRect)
    requires
        x < width,
        y < height,
    ensures
        t.x == x && t.y == y,
        t.w == min_int(limit as int, width - x),
        t.h == min_int(limit as int, height - y),
{
    let w: u32 = if limit <= width - x { limit } else { width - x };
    let h: u32 = if limit <= height - y { limit } else { height - y };
    TileRect { x, y, w, h }
}

/// Cuts a `width` by `height` image into tiles of at most `limit` by `limit`
/// pixels, row after row; tiles at the right and bottom edges are clipped to
/// the image, never padded.
pub fn tile_rects(width: u32, height: u32, limit: u32) -> (r: Vec<TileRect>)
    requires
        limit > 0,
    ensures
        is_tile_grid(r@, width as int, height as int, limit as int),
        r@.len() == spec_tile_count(width as int, height as int, limit as int),
{
    let cols = ceil_div_u32(width, limit);
    let rows = ceil_div_u32(height, limit);
    let ghost c = cols as int;
    let ghost wd = width as int;
    let ghost ht = height as int;
    let ghost lm = limit as int;
    let mut tiles: Vec<TileRect> = Vec::new();
    let mut row: u64 = 0;
    while row < rows
        invariant
            limit > 0,
            cols == ceil_div(wd, lm),
            rows == ceil_div(ht, lm),
            cols <= width,
            rows <= height,
            row <= rows,
            c == cols,
            wd == width,
            ht == height,
            lm == limit,
            tiles@.len() == row * c,
            forall|r: int, k: int|
                0 <= r < row && 0 <= k < c ==> #[trigger] is_tile_at(tiles@[r * c + k], wd, ht, lm, r, k),
        decreases rows - row,
    {
        proof {
            lemma_steps_below(row as int, ht, lm);
        }
        let y: u32 = (row * (limit as u64)) as u32;
        let mut col: u64 = 0;
        while col < cols
            invariant
                limit > 0,
                cols == ceil_div(wd, lm),
                rows == ceil_div(ht, lm),
                cols <= width,
                row < rows,
                col <= cols,
                c == cols,
                wd == width,
                ht == height,
                lm == limit,
                y == row * limit,
                y < height,
                tiles@.len() == row * c + col,
                forall|r: int, k: int|
                    0 <= r < row && 0 <= k < c ==> #[trigger] is_tile_at(tiles@[r * c + k], wd, ht, lm, r, k),
                forall|k: int|
                    0 <= k < col ==> #[trigger] is_tile_at(tiles@[row * c + k], wd, ht, lm, row as int, k),
            decreases cols - col,
        {
            proof {
                lemma_steps_below(col as int, wd, lm);
            }
            let x: u32 = (col * (limit as u64)) as u32;
            let t = tile_from_origin(width, height, limit, x, y);
            let ghost before = tiles@;
            tiles.push(t);
            proof {
                assert forall|r: int, k: int| 0 <= r < row && 0 <= k < c implies #[trigger] is_tile_at(
                    tiles@[r * c + k],
                    wd,
                    ht,
                    lm,
                    r,
                    k,
                ) by {
                    assert(r * c + k < row * c) by (nonlinear_arith)
                        requires r < row, k < c, 0 <= r, 0 <= k;
                    assert(is_tile_at(before[r * c + k], wd, ht, lm, r, k));
                }
                assert forall|k: int| 0 <= k < col + 1 implies #[trigger] is_tile_at(
                    tiles@[row * c + k],
                    wd,
                    ht,
                    lm,
                    row as int,
                    k,
                ) by {
                    if k < col {
                        assert(is_tile_at(before[row * c + k], wd, ht, lm, row as int, k));
                    }
                }
            }
            col = col + 1;
        }
        proof {
            assert(row * c + c == (row + 1) * c) by (nonlinear_arith);
            assert forall|r: int, k: int| 0 <= r < row + 1 && 0 <= k < c implies #[trigger] is_tile_at(
                tiles@[r * c + k],
                wd,
                ht,
                lm,
                r,
                k,
            ) by {
                if r == row {
                    assert(is_tile_at(tiles@[row * c + k], wd, ht, lm, row as int, k));
                }
            }
        }
        row = row + 1;
    }
    proof {
        assert(row * c == c * row) by (nonlinear_arith);
    }
    tiles
}

/// The RGBA bytes of the part `t` of an image `img_width` pixels wide whose
/// bytes are `rgba`, row after row.
pub open spec fn crop_of(rgba: Seq<u8>, img_width: int, t: TileRect) -> Seq<u8> {
    rows_of(rgba, 4 * (t.y * img_width + t.x), 4 * img_width, 4 * t.w, t.h as nat)
}

/// Copies the pixels of the rectangle `t` out of `img` into a tightly packed
/// RGBA buffer.
pub fn crop(img: &RasterImage, t: TileRect) -> (r: Vec<u8>)
    requires
        img.wf(),
        t.x + t.w <= img.width,
        t.y + t.h <= img.height,
    ensures
        r@ == crop_of(img.rgba@, img.width as int, t),
        r@.len() == 4 * t.w * t.h,
{
    let ghost wd = img.width as int;
    let ghost ht = img.height as int;
    if t.h == 0 {
        let empty: Vec<u8> = Vec::new();
        proof {
            assert(empty@ =~= crop_of(img.rgba@, wd, t));
        }
        return empty;
    }
    let len = img.rgba.len();
    proof {
        assert(4 * (t.y * wd + t.x) + (t.h - 1) * (4 * wd) + 4 * t.w <= 4 * wd * ht) by (nonlinear_arith)
            requires t.x + t.w <= wd, t.y + t.h <= ht, t.h > 0, t.x >= 0, t.y >= 0, t.w >= 0;
        assert(t.y * wd <= t.y * wd + t.x <= 4 * (t.y * wd + t.x) + (t.h - 1) * (4 * wd)) by (nonlinear_arith)
            requires t.h > 0, t.x >= 0, t.y >= 0, wd >= 0;
        assert(t.h * (4 * t.w) == 4 * t.w * t.h) by (nonlinear_arith);
        assert(4 * wd <= 4 * wd * ht) by (nonlinear_arith)
            requires t.y + t.h <= ht, t.h > 0, t.y >= 0, wd >= 0;
    }
    let width = img.width as usize;
    let start: usize = 4 * ((t.y as usize) * width + (t.x as usize));
    copy_rows(&img.rgba, start, 4 * width, 4 * (t.w as usize), t.h as usize)
}

/// One tile of a decoded image: where it lies in the source, and its pixels.
pub struct Tile {
    pub rect: TileRect,
    pub rgba: Vec<u8>,
}

/// Cuts `img` into its grid of tiles of at most `limit` by `limit` pixels, row
/// after row, each holding a copy of the pixels it covers.
pub fn tile_image(img: &RasterImage, limit: u32) -> (r: Vec<Tile>)
    requires
        img.wf(),
        limit > 0,
    ensures
        is_tile_grid(r@.map_values(|t: Tile| t.rect), img.width as int, img.height as int, limit as int),
        forall|k: int|
            0 <= k < r@.len() ==> (#[trigger] r@[k]).rgba@ == crop_of(img.rgba@, img.width as int, r@[k].rect),
{
    let rects = tile_rects(img.width, img.height, limit);
    proof {
        lemma_tiles_partition_image(rects@, img.width as int, img.height as int, limit as int);
    }
    let mut out: Vec<Tile> = Vec::new();
    let mut k: usize = 0;
    while k < rects.len()
        invariant
            img.wf(),
            k <= rects@.len(),
            out@.len() == k,
            forall|i: int|
                0 <= i < rects@.len() ==> {
                    let t = #[trigger] rects@[i];
                    &&& t.x + t.w <= img.width
                    &&& t.y + t.h <= img.height
                },
            forall|i: int| 0 <= i < k ==> (#[trigger] out@[i]).rect == rects@[i],
            forall|i: int|
                0 <= i < k ==> (#[trigger] out@[i]).rgba@ == crop_of(img.rgba@, img.width as int, out@[i].rect),
        decreases rects@.len() - k,
    {
        let t = rects[k];
        let pixels = crop(img, t);
        out.push(Tile { rect: t, rgba: pixels });
        k = k + 1;
    }
    proof {
        assert(out@.map_values(|t: Tile| t.rect) =~= rects@);
    }
    out
}

} // verus!
