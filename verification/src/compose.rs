//! The compositing pass: the chosen tiles painted onto an empty canvas, cell by cell.

use crate::codec::blended;
use crate::errors::AppError;
use crate::grid::{lemma_cell_position, Grid};
use crate::raster::{
    lemma_position_is_channel, painted_pixel, pixel_at, pixel_offset, Raster, RasterView,
};
use crate::tile::{views_of, Tile, TileView};
use vstd::arithmetic::div_mod::{
    lemma_div_pos_is_pos, lemma_fundamental_div_mod, lemma_mod_bound, lemma_multiply_divide_lt,
};
use vstd::prelude::*;
use vstd::string::StringExecFns;

verus! {

/// A fully transparent black pixel.
pub open spec fn transparent_pixel() -> Seq<u8> {
    seq![0u8, 0u8, 0u8, 0u8]
}

/// Pixel `(a, b)` of `picture` as it shows on the empty canvas: a fully transparent
/// pixel leaves the canvas empty, a fully opaque one shows as it is, and any other is
/// blended with the empty canvas.
pub open spec fn placed_pixel(picture: RasterView, a: int, b: int) -> Seq<u8> {
    let over = pixel_at(picture.pixels, picture.width, a, b);
    if over[3] == 0 {
        transparent_pixel()
    } else if over[3] == 255 {
        over
    } else {
        blended(transparent_pixel(), over)
    }
}

/// An opaque pixel of a tile shows on the canvas exactly as it is in the tile.
pub proof fn lemma_opaque_pixel_is_kept(picture: RasterView, a: int, b: int)
    requires
        pixel_at(picture.pixels, picture.width, a, b)[3] == 255,
    ensures
        placed_pixel(picture, a, b) == pixel_at(picture.pixels, picture.width, a, b),
{
}

/// The cell that holds pixel `(i, j)`.
pub open spec fn cell_of(grid: Grid, i: int, j: int) -> int {
    (j / (grid.tile_size as int)) * grid.columns + i / (grid.tile_size as int)
}

/// The mosaic in which cell `c` shows `pictures[c]`.
pub open spec fn mosaic_canvas(pictures: Seq<RasterView>, grid: Grid) -> RasterView {
    RasterView {
        width: grid.width(),
        height: grid.height(),
        pixels: Seq::new(
            4 * grid.width() * grid.height(),
            |k: int|
                {
                    let i = (k / 4) % (grid.width() as int);
                    let j = (k / 4) / (grid.width() as int);
                    placed_pixel(
                        pictures[cell_of(grid, i, j)],
                        i % (grid.tile_size as int),
                        j % (grid.tile_size as int),
                    )[k % 4]
                },
        ),
    }
}

/// The pictures of the tiles chosen for the cells, cell after cell.
pub open spec fn chosen_pictures(tiles: Seq<TileView>, choices: Seq<usize>) -> Seq<RasterView> {
    Seq::new(choices.len(), |cell: int| tiles[choices[cell] as int].image->Some_0)
}

/// Whether every chosen tile exists and has its picture loaded.
pub open spec fn all_loaded(tiles: Seq<TileView>, choices: Seq<usize>) -> bool {
    forall|cell: int|
        0 <= cell < choices.len() ==> #[trigger] choices[cell] < tiles.len()
            && tiles[choices[cell] as int].image is Some
}

/// Pixel `(a, b)` of cell `cell` in `canvas`.
pub open spec fn cell_pixel(canvas: RasterView, grid: Grid, cell: int, a: int, b: int) -> Seq<u8> {
    pixel_at(canvas.pixels, canvas.width, grid.cell_x(cell) + a, grid.cell_y(cell) + b)
}

/// Every pixel of the area of a grid lies in exactly the cell `cell_of` names, at the
/// place within it that the remainders name.
pub proof fn lemma_pixel_in_cell(grid: Grid, i: int, j: int)
    requires
        grid.wf(),
        0 <= i < grid.width(),
        0 <= j < grid.height(),
    ensures
        0 <= cell_of(grid, i, j) < grid.cell_count(),
        0 <= i % (grid.tile_size as int) < grid.tile_size,
        0 <= j % (grid.tile_size as int) < grid.tile_size,
        grid.cell_x(cell_of(grid, i, j)) + i % (grid.tile_size as int) == i,
        grid.cell_y(cell_of(grid, i, j)) + j % (grid.tile_size as int) == j,
{
    let t = grid.tile_size as int;
    let c = grid.columns as int;
    let r = grid.rows as int;
    lemma_mod_bound(i, t);
    lemma_mod_bound(j, t);
    lemma_div_pos_is_pos(i, t);
    lemma_div_pos_is_pos(j, t);
    assert(grid.width() == t * c && grid.height() == t * r) by (nonlinear_arith)
        requires
            grid.width() == c * t,
            grid.height() == r * t,
    ;
    lemma_multiply_divide_lt(i, t, c);
    lemma_multiply_divide_lt(j, t, r);
    lemma_cell_position(grid, i / t, j / t);
    lemma_fundamental_div_mod(i, t);
    lemma_fundamental_div_mod(j, t);
    assert((i / t) * t == t * (i / t) && (j / t) * t == t * (j / t)) by (nonlinear_arith);
}

/// A pixel of one cell does not lie in the area of another.
pub proof fn lemma_cells_apart(grid: Grid, cell: int, other: int, a: int, b: int)
    requires
        grid.wf(),
        0 <= cell < grid.cell_count(),
        0 <= other < grid.cell_count(),
        cell != other,
        0 <= a < grid.tile_size,
        0 <= b < grid.tile_size,
    ensures
        !(grid.cell_x(other) <= grid.cell_x(cell) + a < grid.cell_x(other) + grid.tile_size
            && grid.cell_y(other) <= grid.cell_y(cell) + b < grid.cell_y(other) + grid.tile_size),
{
    let t = grid.tile_size as int;
    let c = grid.columns as int;
    let col1 = cell % c;
    let row1 = cell / c;
    let col2 = other % c;
    let row2 = other / c;
    lemma_fundamental_div_mod(cell, c);
    lemma_fundamental_div_mod(other, c);
    if col2 * t <= col1 * t + a < col2 * t + t && row2 * t <= row1 * t + b < row2 * t + t {
        lemma_same_step(col1, col2, a, t);
        lemma_same_step(row1, row2, b, t);
    }
}

/// Two multiples of `t` that lie less than `t` apart, as the hypotheses say, are equal.
proof fn lemma_same_step(p: int, q: int, a: int, t: int)
    by (nonlinear_arith)
    requires
        t > 0,
        0 <= a < t,
        q * t <= p * t + a < q * t + t,
    ensures
        p == q,
{
}

/// A cell lies inside the area of its grid.
pub proof fn lemma_cell_inside(grid: Grid, cell: int, a: int, b: int)
    requires
        grid.wf(),
        0 <= cell < grid.cell_count(),
        0 <= a < grid.tile_size,
        0 <= b < grid.tile_size,
    ensures
        0 <= grid.cell_x(cell) + a < grid.width(),
        0 <= grid.cell_y(cell) + b < grid.height(),
        0 <= grid.cell_x(cell),
        grid.cell_x(cell) + grid.tile_size <= grid.width(),
        0 <= grid.cell_y(cell),
        grid.cell_y(cell) + grid.tile_size <= grid.height(),
{
    let c = grid.columns as int;
    let r = grid.rows as int;
    lemma_mod_bound(cell, c);
    lemma_div_pos_is_pos(cell, c);
    assert(cell < c * r) by (nonlinear_arith)
        requires
            cell < grid.cell_count(),
            grid.cell_count() == c * r,
    ;
    lemma_multiply_divide_lt(cell, c, r);
    lemma_fundamental_div_mod(cell, c);
    assert(c * (cell / c) == (cell / c) * c) by (nonlinear_arith);
    lemma_cell_position(grid, cell % c, cell / c);
}

/// A canvas whose every cell shows its picture is the mosaic of the pictures.
pub proof fn lemma_canvas_is_mosaic(canvas: RasterView, pictures: Seq<RasterView>, grid: Grid)
    requires
        grid.wf(),
        canvas.wf(),
        canvas.width == grid.width(),
        canvas.height == grid.height(),
        forall|cell: int, a: int, b: int|
            0 <= cell < grid.cell_count() && 0 <= a < grid.tile_size && 0 <= b < grid.tile_size
                ==> #[trigger] cell_pixel(canvas, grid, cell, a, b) == placed_pixel(
                pictures[cell],
                a,
                b,
            ),
    ensures
        canvas == mosaic_canvas(pictures, grid),
{
    let wanted = mosaic_canvas(pictures, grid);
    assert forall|k: int| 0 <= k < canvas.pixels.len() implies canvas.pixels[k]
        == wanted.pixels[k] by {
        lemma_position_is_channel(canvas.width, canvas.height, k);
        let i = (k / 4) % (canvas.width as int);
        let j = (k / 4) / (canvas.width as int);
        lemma_pixel_in_cell(grid, i, j);
        let cell = cell_of(grid, i, j);
        let a = i % (grid.tile_size as int);
        let b = j % (grid.tile_size as int);
        assert(cell_pixel(canvas, grid, cell, a, b) == placed_pixel(pictures[cell], a, b));
        crate::raster::lemma_pixel_offset(canvas.width, canvas.height, i, j);
    }
    assert(canvas.pixels =~= wanted.pixels);
}

/// Paints the picture of the tile chosen for each cell onto an empty canvas. Fails
/// with an image error exactly where the canvas would take more than half of the
/// address space.
pub fn compose(tiles: &Vec<Tile>, choices: &Vec<usize>, grid: Grid) -> (res: Result<Raster, AppError>)
    requires
        grid.wf(),
        choices@.len() == grid.cell_count(),
        all_loaded(views_of(tiles@), choices@),
        forall|t: int| 0 <= t < tiles@.len() ==> (#[trigger] tiles@[t])@.tile_size == grid.tile_size,
    ensures
        res is Ok <==> 8 * grid.width() * grid.height() <= usize::MAX,
        res matches Ok(canvas) ==> canvas@.wf() && canvas@ == mosaic_canvas(
            chosen_pictures(views_of(tiles@), choices@),
            grid,
        ),
        res matches Err(error) ==> error is Image,
{
    let ghost pictures = chosen_pictures(views_of(tiles@), choices@);
    let side = grid.tile_size;
    proof {
        lemma_cell_position(grid, 0, 0);
    }
    let width = grid.columns * side;
    let height = grid.rows * side;
    let mut canvas = match Raster::transparent(width, height) {
        Some(empty) => empty,
        None => {
            return Err(AppError::Image(String::from_str("the mosaic is too large")));
        },
    };
    proof {
        assert forall|cell: int, a: int, b: int|
            0 <= cell < grid.cell_count() && 0 <= a < side && 0 <= b < side implies #[trigger] cell_pixel(
            canvas@,
            grid,
            cell,
            a,
            b,
        ) == transparent_pixel() by {
            lemma_cell_inside(grid, cell, a, b);
            crate::raster::lemma_pixel_offset(
                canvas@.width,
                canvas@.height,
                grid.cell_x(cell) + a,
                grid.cell_y(cell) + b,
            );
        }
    }
    let total = choices.len();
    let mut row: u32 = 0;
    let mut cell: usize = 0;
    while row < grid.rows
        invariant
            total == choices@.len(),
            grid.wf(),
            side == grid.tile_size,
            choices@.len() == grid.cell_count(),
            all_loaded(views_of(tiles@), choices@),
            forall|t: int|
                0 <= t < tiles@.len() ==> (#[trigger] tiles@[t])@.tile_size == grid.tile_size,
            pictures == chosen_pictures(views_of(tiles@), choices@),
            row <= grid.rows,
            cell == row * grid.columns,
            canvas@.wf(),
            canvas@.width == grid.width(),
            canvas@.height == grid.height(),
            forall|done: int, a: int, b: int|
                0 <= done < cell && 0 <= a < side && 0 <= b < side ==> #[trigger] cell_pixel(
                    canvas@,
                    grid,
                    done,
                    a,
                    b,
                ) == placed_pixel(pictures[done], a, b),
            forall|ahead: int, a: int, b: int|
                cell <= ahead < grid.cell_count() && 0 <= a < side && 0 <= b < side
                    ==> #[trigger] cell_pixel(canvas@, grid, ahead, a, b) == transparent_pixel(),
        decreases grid.rows - row,
    {
        let mut column: u32 = 0;
        while column < grid.columns
            invariant
                total == choices@.len(),
                grid.wf(),
                side == grid.tile_size,
                choices@.len() == grid.cell_count(),
                all_loaded(views_of(tiles@), choices@),
                forall|t: int|
                    0 <= t < tiles@.len() ==> (#[trigger] tiles@[t])@.tile_size == grid.tile_size,
                pictures == chosen_pictures(views_of(tiles@), choices@),
                row < grid.rows,
                column <= grid.columns,
                cell == row * grid.columns + column,
                canvas@.wf(),
                canvas@.width == grid.width(),
                canvas@.height == grid.height(),
                forall|done: int, a: int, b: int|
                    0 <= done < cell && 0 <= a < side && 0 <= b < side ==> #[trigger] cell_pixel(
                        canvas@,
                        grid,
                        done,
                        a,
                        b,
                    ) == placed_pixel(pictures[done], a, b),
                forall|ahead: int, a: int, b: int|
                    cell <= ahead < grid.cell_count() && 0 <= a < side && 0 <= b < side
                        ==> #[trigger] cell_pixel(canvas@, grid, ahead, a, b)
                        == transparent_pixel(),
            decreases grid.columns - column,
        {
            proof {
                lemma_cell_position(grid, column as int, row as int);
            }
            let x = column * side;
            let y = row * side;
            let chosen = choices[cell];
            let tile = &tiles[chosen];
            let ghost before = canvas@;
            if let Some(picture) = tile.image() {
                canvas = canvas.overlay(picture, x, y);
                proof {
                    let now = canvas@;
                    assert forall|any: int, a: int, b: int|
                        0 <= any < grid.cell_count() && 0 <= a < side && 0 <= b < side implies #[trigger] cell_pixel(
                        now,
                        grid,
                        any,
                        a,
                        b,
                    ) == if any == cell {
                        placed_pixel(pictures[any], a, b)
                    } else {
                        cell_pixel(before, grid, any, a, b)
                    } by {
                        lemma_cell_inside(grid, any, a, b);
                        if any == cell {
                            assert(cell_pixel(before, grid, any, a, b) == transparent_pixel());
                        } else {
                            lemma_cells_apart(grid, any, cell as int, a, b);
                        }
                    }
                }
            }
            column += 1;
            cell += 1;
        }
        proof {
            assert((row + 1) * grid.columns == row * grid.columns + grid.columns)
                by (nonlinear_arith);
        }
        row += 1;
    }
    proof {
        assert(cell == grid.cell_count()) by (nonlinear_arith)
            requires
                cell == row * grid.columns,
                row == grid.rows,
                grid.cell_count() == grid.columns as nat * grid.rows as nat,
        ;
        lemma_canvas_is_mosaic(canvas@, pictures, grid);
    }
    Ok(canvas)
}

} // verus!
