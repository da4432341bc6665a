//! The grid of square cells laid over the target image.

use vstd::arithmetic::div_mod::{
    lemma_fundamental_div_mod, lemma_fundamental_div_mod_converse, lemma_mod_bound,
};
use vstd::prelude::*;

verus! {

/// The smallest multiple of `tile_size` that is at least `len`.
pub open spec fn padded_len(len: nat, tile_size: nat) -> nat
    recommends
        tile_size > 0,
{
    if len % tile_size == 0 {
        len
    } else {
        (len - len % tile_size + tile_size) as nat
    }
}

/// `padded_len` is a multiple of the tile size, at least `len`, and less than one
/// tile beyond it.
pub proof fn lemma_padded_len(len: nat, tile_size: nat)
    requires
        tile_size > 0,
    ensures
        padded_len(len, tile_size) % tile_size == 0,
        len <= padded_len(len, tile_size) < len + tile_size,
{
    let t = tile_size as int;
    lemma_mod_bound(len as int, t);
    if len % tile_size != 0 {
        lemma_fundamental_div_mod(len as int, t);
        let q = len as int / t;
        assert(len - len % tile_size + tile_size == (q + 1) * t) by (nonlinear_arith)
            requires
                len == t * q + len as int % t,
                t == tile_size,
        ;
        lemma_fundamental_div_mod_converse((q + 1) * t, t, q + 1, 0);
    }
}

/// No multiple of the tile size that is at least `len` is smaller than `padded_len`.
pub proof fn lemma_padded_len_least(len: nat, tile_size: nat, multiple: nat)
    requires
        tile_size > 0,
        multiple % tile_size == 0,
        multiple >= len,
    ensures
        multiple >= padded_len(len, tile_size),
{
    let t = tile_size as int;
    lemma_mod_bound(len as int, t);
    if len % tile_size != 0 {
        lemma_fundamental_div_mod(len as int, t);
        lemma_fundamental_div_mod(multiple as int, t);
        let q = len as int / t;
        let m = multiple as int / t;
        assert(m > q) by (nonlinear_arith)
            requires
                multiple == t * m,
                len == t * q + len as int % t,
                0 < len as int % t < t,
                multiple >= len,
        ;
        assert(t * m >= t * (q + 1)) by (nonlinear_arith)
            requires
                m >= q + 1,
                t > 0,
        ;
        assert(t * (q + 1) == t * q + t) by (nonlinear_arith);
    }
}

/// A length needs no padding exactly when it is a multiple of the tile size.
pub proof fn lemma_aligned_needs_no_padding(len: nat, tile_size: nat)
    requires
        tile_size > 0,
    ensures
        padded_len(len, tile_size) == len <==> len % tile_size == 0,
{
    lemma_mod_bound(len as int, tile_size as int);
}

/// The smallest multiple of `tile_size` that is at least `len`; `None` where
/// `tile_size` is zero or the multiple does not fit in 32 bits.
pub fn padded_dimension(len: u32, tile_size: u32) -> (res: Option<u32>)
    ensures
        res is Some <==> tile_size > 0 && padded_len(len as nat, tile_size as nat) <= u32::MAX,
        res matches Some(padded) ==> padded == padded_len(len as nat, tile_size as nat),
{
    if tile_size == 0 {
        return None;
    }
    let rest = len % tile_size;
    if rest == 0 {
        return Some(len);
    }
    assert(rest <= len) by (nonlinear_arith)
        requires
            rest == len % tile_size,
            tile_size > 0,
    ;
    let padded: u64 = (len - rest) as u64 + tile_size as u64;
    if padded > u32::MAX as u64 {
        None
    } else {
        Some(padded as u32)
    }
}

/// A grid of `columns` by `rows` square cells of side `tile_size`, numbered row
/// after row.
#[derive(Clone, Copy, Debug, PartialEq, Eq, Structural)]
pub struct Grid {
    pub tile_size: u32,
    pub columns: u32,
    pub rows: u32,
}

impl Grid {
    /// Number of cells.
    pub open spec fn cell_count(self) -> nat {
        self.columns as nat * self.rows as nat
    }

    /// Left edge of cell `cell`.
    pub open spec fn cell_x(self, cell: int) -> int {
        (cell % self.columns as int) * self.tile_size
    }

    /// Top edge of cell `cell`.
    pub open spec fn cell_y(self, cell: int) -> int {
        (cell / self.columns as int) * self.tile_size
    }

    /// Width of the area the grid covers.
    pub open spec fn width(self) -> nat {
        self.columns as nat * self.tile_size as nat
    }

    /// Height of the area the grid covers.
    pub open spec fn height(self) -> nat {
        self.rows as nat * self.tile_size as nat
    }

    /// The grid covers a non-empty area whose sides fit in 32 bits.
    pub open spec fn wf(self) -> bool {
        &&& self.tile_size > 0
        &&& self.columns > 0
        &&& self.rows > 0
        &&& self.width() <= u32::MAX
        &&& self.height() <= u32::MAX
    }

    /// The grid of cells of side `tile_size` over an area of `width` by `height`, both
    /// of which must be positive multiples of `tile_size`; `None` otherwise.
    pub fn covering(width: u32, height: u32, tile_size: u32) -> (res: Option<Grid>)
        ensures
            res is Some <==> tile_size > 0 && width > 0 && height > 0 && width % tile_size == 0
                && height % tile_size == 0,
            res matches Some(grid) ==> grid.wf() && grid == grid_over(
                width as nat,
                height as nat,
                tile_size as nat,
            ) && grid.width() == width && grid.height() == height,
    {
        if tile_size == 0 || width == 0 || height == 0 {
            return None;
        }
        if width % tile_size != 0 || height % tile_size != 0 {
            return None;
        }
        let columns = width / tile_size;
        let rows = height / tile_size;
        proof {
            lemma_fundamental_div_mod(width as int, tile_size as int);
            lemma_fundamental_div_mod(height as int, tile_size as int);
            assert(columns as nat * tile_size as nat == tile_size * columns) by (nonlinear_arith);
            assert(rows as nat * tile_size as nat == tile_size * rows) by (nonlinear_arith);
        }
        Some(Grid { tile_size, columns, rows })
    }
}

/// The grid of cells of side `tile_size` over an area of `width` by `height`.
pub open spec fn grid_over(width: nat, height: nat, tile_size: nat) -> Grid {
    Grid {
        tile_size: tile_size as u32,
        columns: (width / tile_size) as u32,
        rows: (height / tile_size) as u32,
    }
}

/// Cell `row * columns + column` is the cell in column `column` of row `row`: its
/// corner is `(column * tile_size, row * tile_size)`, inside the area of the grid.
pub proof fn lemma_cell_position(grid: Grid, column: int, row: int)
    requires
        grid.wf(),
        0 <= column < grid.columns,
        0 <= row < grid.rows,
    ensures
        0 <= row * grid.columns + column < grid.cell_count(),
        grid.cell_x(row * grid.columns + column) == column * grid.tile_size,
        grid.cell_y(row * grid.columns + column) == row * grid.tile_size,
        0 <= column * grid.tile_size,
        column * grid.tile_size + grid.tile_size <= grid.width(),
        0 <= row * grid.tile_size,
        row * grid.tile_size + grid.tile_size <= grid.height(),
{
    let c = grid.columns as int;
    let r = grid.rows as int;
    let t = grid.tile_size as int;
    lemma_fundamental_div_mod_converse(row * c + column, c, row, column);
    assert(0 <= row * c && row * c + column < c * r) by (nonlinear_arith)
        requires
            0 <= column < c,
            0 <= row < r,
    ;
    assert(0 <= column * t && column * t + t <= c * t) by (nonlinear_arith)
        requires
            0 <= column < c,
            t > 0,
    ;
    assert(0 <= row * t && row * t + t <= r * t) by (nonlinear_arith)
        requires
            0 <= row < r,
            t > 0,
    ;
}

} // verus!
