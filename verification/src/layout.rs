//! Where the tiles of a grid go.

use crate::web_renderer::Resolution;
use vstd::prelude::*;

verus! {

/// A rectangle on a texture, in pixels from the top left corner.
#[derive(Clone, Copy, Debug, PartialEq, Eq, Structural)]
pub struct Rect {
    pub x: usize,
    pub y: usize,
    pub width: usize,
    pub height: usize,
}

/// The least number of columns, counted from `c`, whose square holds
/// `count` tiles.
pub open spec fn columns_from(count: nat, c: nat) -> nat
    decreases count - c,
{
    if c * c >= count || c >= count {
        c
    } else {
        columns_from(count, c + 1)
    }
}

/// How many columns a grid of `count` tiles has: as few as a square grid
/// needs.
pub open spec fn columns(count: nat) -> nat {
    columns_from(count, 1)
}

/// How many rows a grid of `count` tiles has: as few as its columns need.
pub open spec fn rows(count: nat) -> nat {
    (count + columns(count) - 1) as nat / columns(count)
}

/// Whether a side of `length` pixels has room for `cells` cells of at
/// least one pixel with `padding` pixels before, between and after them.
pub open spec fn has_room(length: int, cells: int, padding: int) -> bool {
    padding * (cells + 1) + cells <= length
}

/// The length of each of `cells` cells along a side of `length` pixels.
pub open spec fn cell_length(length: int, cells: int, padding: int) -> int {
    (length - padding * (cells + 1)) / cells
}

/// Where the `k`-th of `count` tiles goes on a texture of the given
/// resolution: tiles fill the grid row by row, `padding` pixels apart and
/// from the edges. Where there is no room for that, every tile is empty.
pub open spec fn tile(count: nat, resolution: Resolution, padding: u32, k: int) -> Rect {
    let cols = columns(count) as int;
    let rws = rows(count) as int;
    if has_room(resolution.width as int, cols, padding as int) && has_room(
        resolution.height as int,
        rws,
        padding as int,
    ) {
        let w = cell_length(resolution.width as int, cols, padding as int);
        let h = cell_length(resolution.height as int, rws, padding as int);
        Rect {
            x: (padding + (k % cols) * (w + padding)) as usize,
            y: (padding + (k / cols) * (h + padding)) as usize,
            width: w as usize,
            height: h as usize,
        }
    } else {
        Rect { x: 0, y: 0, width: 0, height: 0 }
    }
}

/// The columns of a grid are at least one, enough for a square grid, and
/// no more than enough.
pub proof fn lemma_columns(count: nat, c: nat)
    requires
        c >= 1,
        c == 1 || (c - 1) * (c - 1) < count,
    ensures
        columns_from(count, c) >= c,
        columns_from(count, c) * columns_from(count, c) >= count,
        columns_from(count, c) == 1 || (columns_from(count, c) - 1) * (columns_from(count, c) - 1)
            < count,
        columns_from(count, c) <= count || columns_from(count, c) == 1,
    decreases count - c,
{
    if c * c >= count || c >= count {
        if c >= count && c * c < count {
            assert(c * c >= c * 1) by (nonlinear_arith)
                requires
                    c >= 1,
            ;
        }
        if c > count && c > 1 {
            assert((c - 1) * (c - 1) >= (c - 1) * 1) by (nonlinear_arith)
                requires
                    c - 1 >= 1,
            ;
        }
    } else {
        assert((c + 1 - 1) * (c + 1 - 1) == c * c);
        lemma_columns(count, c + 1);
    }
}

fn times(a: usize, b: usize) -> (p: u128)
    ensures
        p == a * b,
{
    assert(0 <= a * b <= 0xFFFF_FFFF_FFFF_FFFF * 0xFFFF_FFFF_FFFF_FFFF) by (nonlinear_arith)
        requires
            0 <= a <= 0xFFFF_FFFF_FFFF_FFFF,
            0 <= b <= 0xFFFF_FFFF_FFFF_FFFF,
    ;
    (a as u128) * (b as u128)
}

fn columns_of(count: usize) -> (cols: usize)
    ensures
        cols == columns(count as nat),
        cols >= 1,
{
    let mut c: usize = 1;
    proof {
        lemma_columns(count as nat, 1);
    }
    while times(c, c) < count as u128 && c < count
        invariant
            c >= 1,
            c <= count || c == 1,
            columns_from(count as nat, c as nat) == columns(count as nat),
        decreases count - c,
    {
        c += 1;
    }
    c
}

/// What a side needs to have room for `cells` cells with `padding`.
fn needed(cells: usize, padding: u32) -> (need: u128)
    ensures
        need == padding * (cells + 1) + cells,
{
    let product = times(padding as usize, cells);
    assert(padding * (cells + 1) == padding * cells + padding) by (nonlinear_arith);
    assert(padding * cells <= 0xFFFF_FFFF * 0xFFFF_FFFF_FFFF_FFFF) by (nonlinear_arith)
        requires
            0 <= padding <= 0xFFFF_FFFF,
            0 <= cells <= 0xFFFF_FFFF_FFFF_FFFF,
    ;
    product + padding as u128 + cells as u128
}

/// Length and start of the cell at `at` along a side that has room.
fn place_cell(length: usize, cells: usize, padding: u32, at: usize) -> (res: (usize, usize))
    requires
        cells >= 1,
        at < cells,
        has_room(length as int, cells as int, padding as int),
    ensures
        res.0 == cell_length(length as int, cells as int, padding as int),
        res.1 == padding + at * (res.0 + padding),
{
    proof {
        lemma_cell_fits(length as int, cells as int, padding as int, at as int);
        lemma_cell_fits(length as int, cells as int, padding as int, 0);
    }
    let need = needed(cells, padding);
    let taken: u128 = need - cells as u128;
    let w = ((length as u128 - taken) / (cells as u128)) as usize;
    let step = w + padding as usize;
    let offset = times(at, step);
    (w, (padding as u128 + offset) as usize)
}

/// Where each of `count` tiles goes on a texture of the given resolution.
pub fn tile_layout(count: usize, resolution: Resolution, padding: u32) -> (tiles: Vec<Rect>)
    ensures
        tiles.len() == count,
        forall|k: int| 0 <= k < count ==> #[trigger] tiles[k] == tile(
            count as nat,
            resolution,
            padding,
            k,
        ),
{
    let mut tiles: Vec<Rect> = Vec::new();
    if count == 0 {
        return tiles;
    }
    let cols = columns_of(count);
    let rws = (count - 1) / cols + 1;
    assert(rws == rows(count as nat) && (rws - 1) * cols < count) by (nonlinear_arith)
        requires
            cols >= 1,
            count >= 1,
            rws == (count - 1) / (cols as int) + 1,
            rows(count as nat) == (count + cols - 1) as nat / (cols as nat),
    ;
    let room = needed(cols, padding) <= resolution.width as u128 && needed(rws, padding)
        <= resolution.height as u128;
    let mut k: usize = 0;
    while k < count
        invariant
            k <= count,
            cols == columns(count as nat),
            rws == rows(count as nat),
            cols >= 1,
            rws >= 1,
            room == (has_room(resolution.width as int, cols as int, padding as int) && has_room(
                resolution.height as int,
                rws as int,
                padding as int,
            )),
            (rws - 1) * cols < count,
            rws == (count - 1) / (cols as int) + 1,
            tiles.len() == k,
            forall|j: int| 0 <= j < k ==> #[trigger] tiles[j] == tile(
                count as nat,
                resolution,
                padding,
                j,
            ),
        decreases count - k,
    {
        let rect = if room {
            let col = k % cols;
            let row = k / cols;
            assert(row <= rws - 1) by (nonlinear_arith)
                requires
                    row == k / cols,
                    k < count,
                    cols >= 1,
                    (count - 1) / (cols as int) + 1 == rws,
            ;
            let (w, x) = place_cell(resolution.width, cols, padding, col);
            let (h, y) = place_cell(resolution.height, rws, padding, row);
            Rect { x, y, width: w, height: h }
        } else {
            Rect { x: 0, y: 0, width: 0, height: 0 }
        };
        tiles.push(rect);
        k += 1;
    }
    tiles
}

/// Where a side has room, each cell lies within it: it starts after the
/// padding and ends, with the padding behind it, no later than the side.
pub proof fn lemma_cell_fits(length: int, cells: int, padding: int, at: int)
    requires
        cells >= 1,
        padding >= 0,
        0 <= at < cells,
        has_room(length, cells, padding),
    ensures
        cell_length(length, cells, padding) >= 1,
        0 <= padding + at * (cell_length(length, cells, padding) + padding),
        padding + at * (cell_length(length, cells, padding) + padding) + cell_length(
            length,
            cells,
            padding,
        ) + padding <= length,
{
    let w = cell_length(length, cells, padding);
    let free = length - padding * (cells + 1);
    assert(free >= cells) by (nonlinear_arith)
        requires
            padding * (cells + 1) + cells <= length,
            free == length - padding * (cells + 1),
    ;
    assert(w >= 1 && w * cells <= free) by (nonlinear_arith)
        requires
            w == free / cells,
            free >= cells,
            cells >= 1,
    ;
    assert(padding + at * (w + padding) + w + padding <= length && 0 <= at * (w + padding))
        by (nonlinear_arith)
        requires
            0 <= at < cells,
            w >= 1,
            padding >= 0,
            w * cells <= free,
            free == length - padding * (cells + 1),
    ;
}


/// Every tile lies on the texture.
pub proof fn lemma_tile_inside(count: nat, resolution: Resolution, padding: u32, k: int)
    requires
        0 <= k < count,
    ensures
        tile(count, resolution, padding, k).x + tile(count, resolution, padding, k).width
            <= resolution.width,
        tile(count, resolution, padding, k).y + tile(count, resolution, padding, k).height
            <= resolution.height,
{
    lemma_columns(count, 1);
    let cols = columns(count) as int;
    let rws = rows(count) as int;
    if has_room(resolution.width as int, cols, padding as int) && has_room(
        resolution.height as int,
        rws,
        padding as int,
    ) {
        let col = k % cols;
        let row = k / cols;
        assert(0 <= col < cols && 0 <= row < rws) by (nonlinear_arith)
            requires
                col == k % cols,
                row == k / cols,
                0 <= k < count,
                cols >= 1,
                rws == (count + cols - 1) / cols,
        ;
        lemma_cell_fits(resolution.width as int, cols, padding as int, col);
        lemma_cell_fits(resolution.height as int, rws, padding as int, row);
    }
}


/// Whether two rectangles have no pixel in common.
pub open spec fn apart(a: Rect, b: Rect) -> bool {
    ||| a.x + a.width <= b.x
    ||| b.x + b.width <= a.x
    ||| a.y + a.height <= b.y
    ||| b.y + b.height <= a.y
}

/// No two tiles overlap.
pub proof fn lemma_tiles_apart(count: nat, resolution: Resolution, padding: u32, j: int, k: int)
    requires
        0 <= j < k < count,
    ensures
        apart(tile(count, resolution, padding, j), tile(count, resolution, padding, k)),
{
    lemma_columns(count, 1);
    let cols = columns(count) as int;
    let rws = rows(count) as int;
    let p = padding as int;
    if has_room(resolution.width as int, cols, p) && has_room(resolution.height as int, rws, p) {
        let (cj, rj) = (j % cols, j / cols);
        let (ck, rk) = (k % cols, k / cols);
        assert(0 <= cj < cols && 0 <= rj < rws && 0 <= ck < cols && 0 <= rk < rws && rj <= rk && (rj
            == rk ==> cj < ck)) by (nonlinear_arith)
            requires
                cj == j % cols,
                rj == j / cols,
                ck == k % cols,
                rk == k / cols,
                0 <= j < k < count,
                cols >= 1,
                rws == (count + cols - 1) / cols,
        ;
        let w = cell_length(resolution.width as int, cols, p);
        let h = cell_length(resolution.height as int, rws, p);
        lemma_cell_fits(resolution.width as int, cols, p, cj);
        lemma_cell_fits(resolution.width as int, cols, p, ck);
        lemma_cell_fits(resolution.height as int, rws, p, rj);
        lemma_cell_fits(resolution.height as int, rws, p, rk);
        if rj == rk {
            assert(cj * (w + p) + w <= ck * (w + p)) by (nonlinear_arith)
                requires
                    cj + 1 <= ck,
                    w >= 1,
                    p >= 0,
                    cj >= 0,
            ;
        } else {
            assert(rj * (h + p) + h <= rk * (h + p)) by (nonlinear_arith)
                requires
                    rj + 1 <= rk,
                    h >= 1,
                    p >= 0,
                    rj >= 0,
            ;
        }
    }
}

} // verus!
