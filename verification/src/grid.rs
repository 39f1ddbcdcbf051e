//! Launch grids: how many groups of threads cover how much work.

use vstd::prelude::*;

use crate::arith::{ceil_div, lemma_ceil_div, most};

verus! {

/// Threads per cube of the one-dimensional launches.
pub const CUBE_DIM: u32 = 256;

/// Most cubes that one grid dimension takes.
pub const MAX_CUBES_PER_DIM: u32 = 65535;

/// Rows that one workgroup of the decode kernels computes.
pub const GEMV_ROWS: u32 = 16;

/// Cubes along each dimension of a launch.
#[derive(Debug, Clone, Copy, PartialEq, Eq, Structural)]
pub struct Grid {
    /// Along X.
    pub x: u32,
    /// Along Y.
    pub y: u32,
    /// Along Z.
    pub z: u32,
}

impl Grid {
    /// Cubes in all.
    pub open spec fn cubes(self) -> int {
        self.x * self.y * self.z
    }
}

/// Cubes that hold `total` threads, at least one.
pub open spec fn cubes_for(total: int) -> int {
    most(ceil_div(total, CUBE_DIM as int), 1)
}

/// `a / b`, rounded up.
pub fn div_ceil_u32(a: u32, b: u32) -> (q: u32)
    requires
        b > 0,
    ensures
        q == ceil_div(a as int, b as int),
        q * b >= a,
        (q - 1) * b < a,
{
    proof {
        lemma_ceil_div(a as int, b as int);
        if a == 0 {
            assert((0 - 1) * b < 0) by (nonlinear_arith)
                requires
                    b > 0,
            ;
        }
        assert((a + b - 1) / (b as int) == ceil_div(a as int, b as int));
    }
    ((a as u64 + b as u64 - 1) / b as u64) as u32
}

/// A grid along X alone.
pub fn cube_count_1d(total: u32) -> (grid: Grid)
    ensures
        grid == (Grid { x: cubes_for(total as int) as u32, y: 1, z: 1 }),
        grid.cubes() * CUBE_DIM >= total,
        grid.x * 256 >= total,
        total > 0 ==> (grid.x - 1) * 256 < total,
        grid.x > 0 && grid.y == 1 && grid.z == 1,
{
    let cubes: u32 = div_ceil_u32(total, CUBE_DIM);
    proof {
        lemma_ceil_div(total as int, CUBE_DIM as int);
    }
    let x: u32 = if cubes >= 1 {
        cubes
    } else {
        1
    };
    assert(x * 1 * 1 == x) by (nonlinear_arith);
    Grid { x, y: 1, z: 1 }
}

/// A grid that goes on along Y when X alone would take too many cubes. It may
/// hold more threads than `total`, but enough in any case.
pub fn cube_count_capped(total: u32) -> (grid: Grid)
    ensures
        grid == (if cubes_for(total as int) <= MAX_CUBES_PER_DIM {
            Grid { x: cubes_for(total as int) as u32, y: 1, z: 1 }
        } else {
            Grid {
                x: MAX_CUBES_PER_DIM,
                y: ceil_div(cubes_for(total as int), MAX_CUBES_PER_DIM as int) as u32,
                z: 1,
            }
        }),
        grid.cubes() * CUBE_DIM >= total,
        grid.x <= MAX_CUBES_PER_DIM,
        grid.y <= MAX_CUBES_PER_DIM,
        grid.x * grid.y * 256 >= total,
        0 < grid.x <= 65535,
        0 < grid.y <= 65535,
        grid.z == 1,
{
    let flat: Grid = cube_count_1d(total);
    if flat.x <= MAX_CUBES_PER_DIM {
        flat
    } else {
        let y: u32 = div_ceil_u32(flat.x, MAX_CUBES_PER_DIM);
        proof {
            lemma_ceil_div(flat.x as int, MAX_CUBES_PER_DIM as int);
            lemma_ceil_div(total as int, CUBE_DIM as int);
            assert(flat.x * 1 * 1 == flat.x) by (nonlinear_arith);
            assert(MAX_CUBES_PER_DIM * y * 1 == MAX_CUBES_PER_DIM * y) by (nonlinear_arith);
            assert(MAX_CUBES_PER_DIM * y >= flat.x);
            assert(flat.x <= 0x100_0000);
            assert(y <= MAX_CUBES_PER_DIM);
        }
        Grid { x: MAX_CUBES_PER_DIM, y, z: 1 }
    }
}

/// One cube for each row and each run of columns: X counts runs of columns, Y
/// counts rows.
pub fn cube_count_tiled(n_out: u32, m: u32) -> (grid: Grid)
    ensures
        grid == (Grid { x: cubes_for(n_out as int) as u32, y: most(m as int, 1) as u32, z: 1 }),
        grid.x * CUBE_DIM >= n_out,
        grid.y >= m,
        grid.x * 256 >= n_out,
        n_out > 0 ==> (grid.x - 1) * 256 < n_out,
        m > 0 ==> grid.y == m,
{
    proof {
        lemma_ceil_div(n_out as int, CUBE_DIM as int);
    }
    let flat: Grid = cube_count_1d(n_out);
    Grid {
        x: flat.x,
        y: if m >= 1 {
            m
        } else {
            1
        },
        z: 1,
    }
}

/// Workgroups of a decode kernel over `n_out` rows.
pub fn gemv_workgroups(n_out: u32) -> (groups: u32)
    ensures
        groups == ceil_div(n_out as int, GEMV_ROWS as int),
        groups * GEMV_ROWS >= n_out,
        groups * 16 >= n_out,
        groups * 16 < n_out + 16,
{
    proof {
        lemma_ceil_div(n_out as int, GEMV_ROWS as int);
    }
    div_ceil_u32(n_out, GEMV_ROWS)
}

} // verus!
