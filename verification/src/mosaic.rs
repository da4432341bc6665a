//! The two passes that make a mosaic: choosing a tile for every cell, in order, and
//! painting the chosen tiles onto the canvas.

use crate::average::{tiles_avg_rgb, weighted_average};
use crate::color::Color;
use crate::grid::{lemma_cell_position, Grid};
use crate::index::ColorIndex;
use crate::mask::{MaskView, WeightingMask};
use crate::raster::{window, Raster, RasterView};
use crate::select::{best_tile, is_best_tile, lemma_best_tile_unique};
use vstd::prelude::*;

verus! {

/// How often `tile` occurs among `choices`.
pub open spec fn occurrences(choices: Seq<usize>, tile: usize) -> nat
    decreases choices.len(),
{
    if choices.len() == 0 {
        0
    } else {
        occurrences(choices.drop_last(), tile) + if choices.last() == tile {
            1nat
        } else {
            0nat
        }
    }
}

/// No tile occurs more often than there are choices.
pub proof fn lemma_occurrences_bound(choices: Seq<usize>, tile: usize)
    ensures
        occurrences(choices, tile) <= choices.len(),
    decreases choices.len(),
{
    if choices.len() > 0 {
        lemma_occurrences_bound(choices.drop_last(), tile);
    }
}

/// The usage counts of `tile_count` tiles once the first `done` choices are made.
pub open spec fn usage_after(choices: Seq<usize>, done: int, tile_count: nat) -> Seq<u64> {
    Seq::new(tile_count, |tile: int| occurrences(choices.take(done), tile as usize) as u64)
}

/// Whether `choices` holds, cell after cell, the tile chosen for each colour: the
/// best tile given how often every tile was chosen for the cells before.
pub open spec fn is_selection(
    points: Seq<Color>,
    penalty_factor: nat,
    colors: Seq<Color>,
    choices: Seq<usize>,
) -> bool {
    &&& choices.len() == colors.len()
    &&& forall|cell: int|
        0 <= cell < choices.len() ==> #[trigger] choices[cell] < points.len() && is_best_tile(
            points,
            usage_after(choices, cell, points.len()),
            penalty_factor,
            colors[cell],
            choices[cell],
        )
}

/// The choices are determined by the colours of the tiles, the penalty factor and the
/// colours of the cells: every choice depends only on the choices before it.
pub proof fn lemma_selection_unique(
    points: Seq<Color>,
    penalty_factor: nat,
    colors: Seq<Color>,
    first: Seq<usize>,
    second: Seq<usize>,
)
    requires
        is_selection(points, penalty_factor, colors, first),
        is_selection(points, penalty_factor, colors, second),
    ensures
        first == second,
{
    lemma_selections_agree(points, penalty_factor, colors, first, second, first.len() as int);
    assert(first.take(first.len() as int) =~= first);
}

proof fn lemma_selections_agree(
    points: Seq<Color>,
    penalty_factor: nat,
    colors: Seq<Color>,
    first: Seq<usize>,
    second: Seq<usize>,
    upto: int,
)
    requires
        is_selection(points, penalty_factor, colors, first),
        is_selection(points, penalty_factor, colors, second),
        0 <= upto <= first.len(),
    ensures
        first.take(upto) == second.take(upto),
    decreases upto,
{
    if upto > 0 {
        let cell = upto - 1;
        lemma_selections_agree(points, penalty_factor, colors, first, second, cell);
        assert(second[cell] < points.len());
        lemma_best_tile_unique(
            points,
            usage_after(first, cell, points.len()),
            penalty_factor,
            colors[cell],
            first[cell],
            second[cell],
        );
    }
}

/// The colour of every cell of `grid` in `target`, row after row: the weighted
/// average of the cell under `mask`.
pub open spec fn cell_colors(target: RasterView, mask: MaskView, grid: Grid) -> Seq<Color> {
    Seq::new(
        grid.cell_count(),
        |cell: int|
            weighted_average(
                window(
                    target,
                    grid.cell_x(cell),
                    grid.cell_y(cell),
                    grid.tile_size as nat,
                    grid.tile_size as nat,
                ),
                mask,
            ),
    )
}

/// Chooses a tile for every colour in order; each choice counts against the tile in
/// the choices that follow.
pub fn select_tiles(index: &ColorIndex, colors: &Vec<Color>, penalty_factor: u32) -> (choices: Vec<
    usize,
>)
    requires
        index@.len() > 0,
    ensures
        is_selection(index@, penalty_factor as nat, colors@, choices@),
{
    let tile_count = index.len();
    let mut usage: Vec<u64> = vec![0u64; tile_count];
    let mut choices: Vec<usize> = Vec::new();
    let mut cell: usize = 0;
    while cell < colors.len()
        invariant
            cell <= colors@.len(),
            tile_count == index@.len(),
            tile_count > 0,
            choices@.len() == cell,
            usage@ == usage_after(choices@, cell as int, tile_count as nat),
            forall|done: int|
                0 <= done < cell ==> #[trigger] choices@[done] < index@.len() && is_best_tile(
                    index@,
                    usage_after(choices@, done, index@.len()),
                    penalty_factor as nat,
                    colors@[done],
                    choices@[done],
                ),
        decreases colors@.len() - cell,
    {
        let best = best_tile(index, &colors[cell], &usage, penalty_factor);
        let ghost before = choices@;
        proof {
            lemma_occurrences_bound(before.take(cell as int), best);
        }
        let count = usage[best];
        usage.set(best, count + 1);
        choices.push(best);
        proof {
            let after = choices@;
            assert(after.take(cell as int) =~= before);
            assert(before.take(cell as int) =~= before);
            assert(after.take(cell + 1) =~= after);
            assert forall|done: int| 0 <= done < cell + 1 implies #[trigger] after[done]
                < index@.len() && is_best_tile(
                index@,
                usage_after(after, done, index@.len()),
                penalty_factor as nat,
                colors@[done],
                after[done],
            ) by {
                assert(after.take(done) =~= before.take(done));
            }
            assert forall|tile: int| 0 <= tile < tile_count implies usage@[tile] == usage_after(
                after,
                cell + 1,
                tile_count as nat,
            )[tile] by {
                lemma_occurrences_bound(before, tile as usize);
            }
        }
        cell += 1;
    }
    choices
}

/// The colour of every cell of `grid` in `target`, row after row.
pub fn sample_cells(target: &Raster, mask: &WeightingMask, grid: Grid) -> (colors: Vec<Color>)
    requires
        grid.wf(),
        target@.width == grid.width(),
        target@.height == grid.height(),
        mask@.size == grid.tile_size,
    ensures
        colors@ == cell_colors(target@, mask@, grid),
{
    let mut colors: Vec<Color> = Vec::new();
    let mut row: u32 = 0;
    while row < grid.rows
        invariant
            grid.wf(),
            target@.width == grid.width(),
            target@.height == grid.height(),
            mask@.size == grid.tile_size,
            row <= grid.rows,
            colors@.len() == row * grid.columns,
            forall|cell: int|
                0 <= cell < colors@.len() ==> colors@[cell] == cell_colors(
                    target@,
                    mask@,
                    grid,
                )[cell],
        decreases grid.rows - row,
    {
        let mut column: u32 = 0;
        while column < grid.columns
            invariant
                grid.wf(),
                target@.width == grid.width(),
                target@.height == grid.height(),
                mask@.size == grid.tile_size,
                row < grid.rows,
                column <= grid.columns,
                colors@.len() == row * grid.columns + column,
                forall|cell: int|
                    0 <= cell < colors@.len() ==> colors@[cell] == cell_colors(
                        target@,
                        mask@,
                        grid,
                    )[cell],
            decreases grid.columns - column,
        {
            proof {
                lemma_cell_position(grid, column as int, row as int);
            }
            let x = column * grid.tile_size;
            let y = row * grid.tile_size;
            if let Some(part) = target.region(x, y, grid.tile_size, grid.tile_size) {
                colors.push(tiles_avg_rgb(&part, mask));
            }
            column += 1;
        }
        proof {
            assert((row + 1) * grid.columns == row * grid.columns + grid.columns)
                by (nonlinear_arith);
        }
        row += 1;
    }
    proof {
        assert(row * grid.columns == grid.cell_count()) by (nonlinear_arith)
            requires
                row == grid.rows,
        ;
    }
    colors
}

} // verus!
