//! Packed weights: an `[n_out, k]` matrix as planes of words, and the launches
//! that multiply with it or look rows up in it.

use vstd::prelude::*;

use crate::blocks::{byte_at, half_plane, i8_at, plane, stream_byte};
use crate::error::{bad_shape, is_bad_shape, two, Result};
use crate::formats::{
    bit, nibble, q4_0_packed, q4_k_packed, q5_0_packed, q5_k_packed, q6_k_packed, q8_0_packed,
    repack_q4_0, repack_q4_k, repack_q5_0, repack_q5_k, repack_q6_k, repack_q8_0, singles,
    six_bit_min, six_bit_scale, Scaled, ScaledMin, ScaledTwice, K_SUPERBLOCK, Q4_0_BLOCK,
    Q4_0_BLOCK_BYTES, Q4_K_BLOCK_BYTES, Q5_0_BLOCK_BYTES, Q5_K_BLOCK_BYTES, Q6_K_BLOCK_BYTES,
    Q8_0_BLOCK_BYTES,
};
use crate::grid::{
    cube_count_capped, cube_count_tiled, cubes_for, Grid, MAX_CUBES_PER_DIM,
};
use crate::arith::{ceil_div, most};
use crate::text::same_text;

verus! {

/// How a matrix product is launched.
#[derive(Debug, Clone, Copy, PartialEq, Eq, Structural)]
pub enum MatmulLaunch {
    /// One thread for each output.
    Flat(Grid),
    /// One cube for each row and run of columns, with the row staged in shared
    /// memory.
    Tiled(Grid),
    /// The decode kernel, which splits each row among cooperating lanes.
    Gemv(u32),
}

/// Blocks of `block` values in an `[n_out, k]` matrix.
pub open spec fn block_count(n_out: int, k: int, block: int) -> int {
    n_out * k / block
}

/// `len` bytes are an `[n_out, k]` matrix of blocks of `block` values in
/// `bytes` bytes, with blocks along `k`.
pub open spec fn weight_fits(len: int, n_out: int, k: int, block: int, bytes: int) -> bool {
    k != 0 && k % block == 0 && len == block_count(n_out, k, block) * bytes
}

/// The grid of a flat launch over `outputs` outputs. The count is taken as a
/// 32-bit number.
pub open spec fn flat_grid(outputs: int) -> Grid {
    let cubes = cubes_for(outputs as u32 as int);
    if cubes <= MAX_CUBES_PER_DIM {
        Grid { x: cubes as u32, y: 1, z: 1 }
    } else {
        Grid {
            x: MAX_CUBES_PER_DIM,
            y: ceil_div(cubes, MAX_CUBES_PER_DIM as int) as u32,
            z: 1,
        }
    }
}

/// The grid of a tiled launch over an `[m, n_out]` output.
pub open spec fn tiled_grid(n_out: int, m: int) -> Grid {
    Grid {
        x: cubes_for(n_out as u32 as int) as u32,
        y: most(m as u32 as int, 1) as u32,
        z: 1,
    }
}

/// A flat launch has a thread for every output and no dimension too many cubes;
/// as long as one dimension is enough, it has less than a cube of threads to
/// spare.
pub proof fn law_flat_launch_covers(outputs: int)
    requires
        0 <= outputs <= u32::MAX,
    ensures
        flat_grid(outputs).x * flat_grid(outputs).y * flat_grid(outputs).z * 256 >= outputs,
        0 < flat_grid(outputs).x <= 65535,
        0 < flat_grid(outputs).y <= 65535,
        flat_grid(outputs).z == 1,
        0 < outputs <= 65535 * 256 ==> flat_grid(outputs).y == 1 && (flat_grid(outputs).x - 1) * 256
            < outputs,
        outputs > 65535 * 256 ==> flat_grid(outputs).x == 65535 && (flat_grid(outputs).y - 1)
            * 65535 * 256 < outputs,
{
    let grid = flat_grid(outputs);
    let cubes = cubes_for(outputs);
    crate::arith::lemma_ceil_div(outputs, 256);
    assert(outputs as u32 as int == outputs);
    assert(cubes <= 0x100_0000);
    if cubes <= MAX_CUBES_PER_DIM {
        assert(grid.x * grid.y * grid.z == grid.x) by (nonlinear_arith)
            requires
                grid.y == 1,
                grid.z == 1,
        ;
    } else {
        crate::arith::lemma_ceil_div(cubes, 65535);
        let y = ceil_div(cubes, 65535);
        assert(y <= 65535);
        assert(grid.x * grid.y * grid.z == 65535 * grid.y) by (nonlinear_arith)
            requires
                grid.x == 65535,
                grid.z == 1,
        ;
        assert((grid.y - 1) * 65535 * 256 == ((grid.y - 1) * 65535) * 256);
    }
}

/// A tiled launch has a thread for every column and a cube for every row; it has
/// less than a cube of columns to spare and no row.
pub proof fn law_tiled_launch_covers(n_out: int, m: int)
    requires
        0 < n_out <= u32::MAX,
        0 < m <= u32::MAX,
    ensures
        tiled_grid(n_out, m).x * 256 >= n_out,
        (tiled_grid(n_out, m).x - 1) * 256 < n_out,
        tiled_grid(n_out, m).y == m,
        tiled_grid(n_out, m).z == 1,
{
    crate::arith::lemma_ceil_div(n_out, 256);
    assert(n_out as u32 as int == n_out && m as u32 as int == m);
}

/// A matrix of blocks along its rows is a row of whole blocks.
pub(crate) proof fn lemma_blocks(n_out: int, k: int, block: int)
    requires
        n_out >= 0,
        k >= 0,
        block > 0,
        k % block == 0,
    ensures
        n_out * k >= 0,
        n_out * k % block == 0,
        block_count(n_out, k, block) * block == n_out * k,
        block_count(n_out, k, block) == n_out * (k / block),
        block_count(n_out, k, block) >= 0,
{
    let c = k / block;
    vstd::arithmetic::div_mod::lemma_fundamental_div_mod(k, block);
    assert(n_out * k == (n_out * c) * block) by (nonlinear_arith)
        requires
            k == block * c,
    ;
    assert(n_out * k >= 0) by (nonlinear_arith)
        requires
            n_out >= 0,
            k >= 0,
    ;
    assert((n_out * c) * block == block * (n_out * c)) by (nonlinear_arith);
    vstd::arithmetic::div_mod::lemma_fundamental_div_mod_converse(
        n_out * k,
        block,
        n_out * c,
        0,
    );
    assert(n_out * c >= 0) by (nonlinear_arith)
        requires
            n_out >= 0,
            c >= 0,
    ;
}

/// The block that holds the value at `row` and `col`.
proof fn lemma_place(n_out: int, k: int, block: int, row: int, col: int)
    requires
        block > 0,
        k % block == 0,
        0 <= row < n_out,
        0 <= col < k,
    ensures
        0 <= row * (k / block),
        0 <= row * (k / block) + col / block < block_count(n_out, k, block),
        (row * k + col) / block == row * (k / block) + col / block,
        (row * k + col) % block == col % block,
{
    lemma_blocks(n_out, k, block);
    let c = k / block;
    let b = col / block;
    vstd::arithmetic::div_mod::lemma_fundamental_div_mod(k, block);
    vstd::arithmetic::div_mod::lemma_fundamental_div_mod(col, block);
    vstd::arithmetic::div_mod::lemma_mod_bound(col, block);
    assert(0 <= b < c) by (nonlinear_arith)
        requires
            block > 0,
            0 <= col,
            col < block * c,
            col == block * b + col % block,
            0 <= col % block < block,
    ;
    assert(0 <= row * c && row * c + b < n_out * c) by (nonlinear_arith)
        requires
            0 <= row,
            row + 1 <= n_out,
            0 <= b < c,
    ;
    assert(row * k + col == (row * c + b) * block + col % block) by (nonlinear_arith)
        requires
            k == block * c,
            col == block * b + col % block,
    ;
    assert((row * c + b) * block == block * (row * c + b)) by (nonlinear_arith);
    vstd::arithmetic::div_mod::lemma_fundamental_div_mod_converse(
        row * k + col,
        block,
        row * c + b,
        col % block,
    );
}

/// A stream that fits a matrix holds as many blocks as the matrix.
proof fn lemma_stream_blocks(len: int, n_out: int, k: int, block: int, bytes: int)
    requires
        weight_fits(len, n_out, k, block, bytes),
        bytes > 0,
    ensures
        len / bytes == block_count(n_out, k, block),
        len % bytes == 0,
{
    let c = block_count(n_out, k, block);
    vstd::arithmetic::div_mod::lemma_div_multiples_vanish(c, bytes);
    vstd::arithmetic::div_mod::lemma_mod_multiples_basic(c, bytes);
    assert(c * bytes == bytes * c) by (nonlinear_arith);
}

/// Checks the length of a stream against the matrix that it should hold.
fn check_weight(
    tensor: &str,
    len: usize,
    n_out: usize,
    k: usize,
    width: usize,
    block: usize,
    bytes: usize,
) -> (r: Result<()>)
    requires
        block > 0,
        bytes > 0,
    ensures
        r is Ok <==> weight_fits(len as int, n_out as int, k as int, block as int, bytes as int),
        r matches Err(e) ==> is_bad_shape(e, tensor@, seq![n_out, width], seq![len]),
{
    if k == 0 || k % block != 0 {
        return Err(bad_shape(tensor, two(n_out, width), crate::error::one(len)));
    }
    proof {
        lemma_blocks(n_out as int, k as int, block as int);
    }
    let ghost count = block_count(n_out as int, k as int, block as int);
    proof {
        vstd::arithmetic::div_mod::lemma_fundamental_div_mod(len as int, bytes as int);
        vstd::arithmetic::div_mod::lemma_div_multiples_vanish(count, bytes as int);
        vstd::arithmetic::div_mod::lemma_mod_multiples_basic(count, bytes as int);
        assert(count * bytes == bytes * count) by (nonlinear_arith);
        assert(count > len ==> count * bytes > len) by (nonlinear_arith)
            requires
                bytes >= 1,
                len >= 0,
        ;
    }
    let fits: bool = match n_out.checked_mul(k / block) {
        Some(blocks) => len % bytes == 0 && len / bytes == blocks,
        None => false,
    };
    if fits {
        Ok(())
    } else {
        Err(bad_shape(tensor, two(n_out, width), crate::error::one(len)))
    }
}

/// Checks the length of an input against its `m` rows of `k` values.
fn check_input(tensor: &str, len: usize, m: usize, k: usize) -> (r: Result<()>)
    requires
        m * k <= usize::MAX,
    ensures
        r is Ok <==> m != 0 && len == m * k,
        r matches Err(e) ==> is_bad_shape(e, tensor@, seq![m, k], seq![len]),
{
    if m == 0 || len != m * k {
        Err(bad_shape(tensor, two(m, k), crate::error::one(len)))
    } else {
        Ok(())
    }
}

/// The grid of a flat launch.
fn flat(outputs: usize) -> (grid: Grid)
    ensures
        grid == flat_grid(outputs as int),
{
    cube_count_capped(
        #[verifier::truncate]
        (outputs as u32),
    )
}

/// The grid of a tiled launch.
fn tiled(n_out: usize, m: usize) -> (grid: Grid)
    ensures
        grid == tiled_grid(n_out as int, m as int),
{
    cube_count_tiled(
        #[verifier::truncate]
        (n_out as u32),
        #[verifier::truncate]
        (m as u32),
    )
}

/// The tiled kernels are used unless the variable that disables them reads `1`.
pub fn tiled_enabled(setting: Option<&str>) -> (enabled: bool)
    ensures
        enabled == !(setting matches Some(v) && v@ == "1"@),
{
    match setting {
        Some(v) => !same_text(v, "1"),
        None => true,
    }
}

/// A nibble of a byte.
fn nibble_of(byte: u32, high: bool) -> (value: u32)
    requires
        byte < 256,
    ensures
        value == nibble(byte as int, high),
        value < 16,
{
    if high {
        byte / 16
    } else {
        byte % 16
    }
}

/// Two to the power of `at`.
fn power_of_two(at: usize) -> (power: u32)
    requires
        at < 8,
    ensures
        power == vstd::arithmetic::power2::pow2(at as nat),
        power > 0,
{
    proof {
        vstd::arithmetic::power2::lemma2_to64();
    }
    if at == 0 {
        1
    } else if at == 1 {
        2
    } else if at == 2 {
        4
    } else if at == 3 {
        8
    } else if at == 4 {
        16
    } else if at == 5 {
        32
    } else if at == 6 {
        64
    } else {
        128
    }
}

/// Bit `at` of a byte.
fn bit_of(byte: u32, at: usize) -> (value: u32)
    requires
        byte < 256,
        at < 8,
    ensures
        value == bit(byte as int, at as int),
        value < 2,
{
    let power: u32 = power_of_two(at);
    byte / power % 2
}

/// The 6-bit scale of sub-block `j` in the 12 bytes from byte `base`.
fn k4_scale(scales: &Vec<u32>, base: usize, j: usize) -> (value: u32)
    requires
        j < 8,
        base + 12 <= usize::MAX,
        (base + 11) / 4 < scales@.len(),
    ensures
        value == six_bit_scale(|t: int| stream_byte(scales@, base + t), j as int),
{
    if j < 4 {
        byte_at(scales, base + j) % 64
    } else {
        byte_at(scales, base + j + 4) % 16 + byte_at(scales, base + j - 4) / 64 * 16
    }
}

/// The 6-bit minimum of sub-block `j` in the 12 bytes from byte `base`.
fn k4_min(scales: &Vec<u32>, base: usize, j: usize) -> (value: u32)
    requires
        j < 8,
        base + 12 <= usize::MAX,
        (base + 11) / 4 < scales@.len(),
    ensures
        value == six_bit_min(|t: int| stream_byte(scales@, base + t), j as int),
{
    if j < 4 {
        byte_at(scales, base + j + 4) % 64
    } else {
        byte_at(scales, base + j + 4) / 16 + byte_at(scales, base + j) / 64 * 16
    }
}

/// A weight in packed Q4_0 form: `[n_out, k]` row by row, with blocks along
/// `k`.
pub struct Q40Weight {
    qs: Vec<u32>,
    d: Vec<u32>,
    n_out: usize,
    k: usize,
}

impl Q40Weight {
    /// Output features.
    pub closed spec fn rows(&self) -> int {
        self.n_out as int
    }

    /// Input features.
    pub closed spec fn cols(&self) -> int {
        self.k as int
    }

    /// Words of nibbles, four to a block.
    pub closed spec fn qs_plane(&self) -> Seq<u32> {
        self.qs@
    }

    /// Bit patterns of the scales, one to a block.
    pub closed spec fn d_plane(&self) -> Seq<u32> {
        self.d@
    }

    /// The planes hold every block of the matrix.
    pub open spec fn valid(&self) -> bool {
        &&& self.rows() >= 0
        &&& self.cols() > 0
        &&& self.cols() % 32 == 0
        &&& block_count(self.rows(), self.cols(), 32) * 18 <= usize::MAX
        &&& self.qs_plane().len() == block_count(self.rows(), self.cols(), 32) * 4
        &&& self.d_plane().len() == block_count(self.rows(), self.cols(), 32) * 1
    }

    /// Takes a raw Q4_0 stream apart. It must hold exactly the blocks of an
    /// `[n_out, k]` matrix.
    pub fn from_gguf_bytes(data: &[u8], n_out: usize, k: usize) -> (r: Result<Self>)
        ensures
            r is Ok <==> weight_fits(data@.len() as int, n_out as int, k as int, 32, 18)
                && data@.len() > 0,
            r matches Ok(w) ==> {
                &&& w.valid()
                &&& w.rows() == n_out
                &&& w.cols() == k
                &&& w.qs_plane() == plane(data@, 18, 2, 4)
                &&& w.d_plane() == singles(half_plane(data@, 18, 0, 1))
            },
            r matches Err(e) ==> if !weight_fits(
                data@.len() as int,
                n_out as int,
                k as int,
                32,
                18,
            ) {
                is_bad_shape(
                    e,
                    "q4_0 weight"@,
                    seq![n_out, (k as int / 32 * 18) as usize],
                    seq![data@.len() as usize],
                )
            } else {
                is_bad_shape(e, "q4_0 block stream"@, seq![18usize], seq![0usize])
            },
    {
        let len: usize = data.len();
        match check_weight(
            "q4_0 weight",
            len,
            n_out,
            k,
            k / Q4_0_BLOCK * Q4_0_BLOCK_BYTES,
            Q4_0_BLOCK,
            Q4_0_BLOCK_BYTES,
        ) {
            Err(e) => Err(e),
            Ok(()) => {
                proof {
                    lemma_blocks(n_out as int, k as int, 32);
                    lemma_stream_blocks(len as int, n_out as int, k as int, 32, 18);
                }
                match repack_q4_0(data) {
                    Err(e) => Err(e),
                    Ok((qs, d)) => Ok(Q40Weight { qs, d, n_out, k }),
                }
            },
        }
    }

    /// Output features.
    pub fn n_out(&self) -> (n_out: usize)
        ensures
            n_out == self.rows(),
    {
        self.n_out
    }

    /// Input features.
    pub fn k(&self) -> (k: usize)
        ensures
            k == self.cols(),
    {
        self.k
    }

    /// Words of nibbles, four to a block.
    pub fn qs(&self) -> (words: &Vec<u32>)
        ensures
            words@ == self.qs_plane(),
    {
        &self.qs
    }

    /// Bit patterns of the scales, one to a block.
    pub fn d(&self) -> (words: &Vec<u32>)
        ensures
            words@ == self.d_plane(),
    {
        &self.d
    }

    /// Bytes of all planes: 20 for each block.
    pub fn vram_bytes(&self) -> (bytes: usize)
        requires
            self.valid(),
            block_count(self.rows(), self.cols(), 32) * 20 <= usize::MAX,
        ensures
            bytes == block_count(self.rows(), self.cols(), 32) * 20,
            bytes == 4 * (self.qs_plane().len() + self.d_plane().len()),
    {
        proof {
            lemma_blocks(self.rows(), self.cols(), 32);
        }
        self.n_out * (self.k / Q4_0_BLOCK) * 20
    }

    /// The value at `row` and `col`.
    pub fn value(&self, row: usize, col: usize) -> (value: Scaled)
        requires
            self.valid(),
            row < self.rows(),
            col < self.cols(),
        ensures
            value == q4_0_packed(self.qs_plane(), self.d_plane(), row * self.cols() + col),
    {
        proof {
            lemma_place(self.rows(), self.cols(), 32, row as int, col as int);
        }
        let block: usize = row * (self.k / 32) + col / 32;
        let j: usize = col % 32;
        let byte: u32 = byte_at(&self.qs, block * 16 + j % 16);
        Scaled { q: nibble_of(byte, j >= 16) as i32 - 8, scale: self.d[block] }
    }

    /// The launch over `m` rows.
    pub fn matmul_device(&self, m: usize) -> (launch: MatmulLaunch)
        requires
            m * self.rows() <= usize::MAX,
        ensures
            launch == MatmulLaunch::Flat(flat_grid(m * self.rows())),
    {
        MatmulLaunch::Flat(flat(m * self.n_out))
    }

    /// The launch over an input of `len` values in `m` rows.
    pub fn matmul_host(&self, len: usize, m: usize) -> (r: Result<MatmulLaunch>)
        requires
            m * self.rows() <= usize::MAX,
            m * self.cols() <= usize::MAX,
        ensures
            r is Ok <==> m != 0 && len == m * self.cols(),
            r matches Ok(launch) ==> launch == MatmulLaunch::Flat(flat_grid(m * self.rows())),
            r matches Err(e) ==> is_bad_shape(
                e,
                "q4_0 matmul input"@,
                seq![m, self.cols() as usize],
                seq![len],
            ),
    {
        match check_input("q4_0 matmul input", len, m, self.k) {
            Err(e) => Err(e),
            Ok(()) => Ok(self.matmul_device(m)),
        }
    }
}

/// A weight in packed Q5_0 form: `[n_out, k]` row by row, with blocks along
/// `k`.
pub struct Q50Weight {
    qs: Vec<u32>,
    qh: Vec<u32>,
    d: Vec<u32>,
    n_out: usize,
    k: usize,
}

impl Q50Weight {
    /// Output features.
    pub closed spec fn rows(&self) -> int {
        self.n_out as int
    }

    /// Input features.
    pub closed spec fn cols(&self) -> int {
        self.k as int
    }

    /// Words of nibbles, four to a block.
    pub closed spec fn qs_plane(&self) -> Seq<u32> {
        self.qs@
    }

    /// Words of high bits, one to a block.
    pub closed spec fn qh_plane(&self) -> Seq<u32> {
        self.qh@
    }

    /// Bit patterns of the scales, one to a block.
    pub closed spec fn d_plane(&self) -> Seq<u32> {
        self.d@
    }

    /// The planes hold every block of the matrix.
    pub open spec fn valid(&self) -> bool {
        &&& self.rows() >= 0
        &&& self.cols() > 0
        &&& self.cols() % 32 == 0
        &&& block_count(self.rows(), self.cols(), 32) * 22 <= usize::MAX
        &&& self.qs_plane().len() == block_count(self.rows(), self.cols(), 32) * 4
        &&& self.qh_plane().len() == block_count(self.rows(), self.cols(), 32) * 1
        &&& self.d_plane().len() == block_count(self.rows(), self.cols(), 32) * 1
    }

    /// Takes a raw Q5_0 stream apart. It must hold exactly the blocks of an
    /// `[n_out, k]` matrix.
    pub fn from_gguf_bytes(data: &[u8], n_out: usize, k: usize) -> (r: Result<Self>)
        ensures
            r is Ok <==> weight_fits(data@.len() as int, n_out as int, k as int, 32, 22)
                && data@.len() > 0,
            r matches Ok(w) ==> {
                &&& w.valid()
                &&& w.rows() == n_out
                &&& w.cols() == k
                &&& w.qs_plane() == plane(data@, 22, 6, 4)
                &&& w.qh_plane() == plane(data@, 22, 2, 1)
                &&& w.d_plane() == singles(half_plane(data@, 22, 0, 1))
            },
            r matches Err(e) ==> if !weight_fits(
                data@.len() as int,
                n_out as int,
                k as int,
                32,
                22,
            ) {
                is_bad_shape(
                    e,
                    "q5_0 weight"@,
                    seq![n_out, k],
                    seq![data@.len() as usize],
                )
            } else {
                is_bad_shape(e, "q5_0 block stream"@, seq![22usize], seq![0usize])
            },
    {
        let len: usize = data.len();
        match check_weight(
            "q5_0 weight",
            len,
            n_out,
            k,
            k,
            Q4_0_BLOCK,
            Q5_0_BLOCK_BYTES,
        ) {
            Err(e) => Err(e),
            Ok(()) => {
                proof {
                    lemma_blocks(n_out as int, k as int, 32);
                    lemma_stream_blocks(len as int, n_out as int, k as int, 32, 22);
                }
                match repack_q5_0(data) {
                    Err(e) => Err(e),
                    Ok((qs, qh, d)) => Ok(Q50Weight { qs, qh, d, n_out, k }),
                }
            },
        }
    }

    /// Output features.
    pub fn n_out(&self) -> (n_out: usize)
        ensures
            n_out == self.rows(),
    {
        self.n_out
    }

    /// Input features.
    pub fn k(&self) -> (k: usize)
        ensures
            k == self.cols(),
    {
        self.k
    }

    /// Words of nibbles, four to a block.
    pub fn qs(&self) -> (words: &Vec<u32>)
        ensures
            words@ == self.qs_plane(),
    {
        &self.qs
    }

    /// Words of high bits, one to a block.
    pub fn qh(&self) -> (words: &Vec<u32>)
        ensures
            words@ == self.qh_plane(),
    {
        &self.qh
    }

    /// Bit patterns of the scales, one to a block.
    pub fn d(&self) -> (words: &Vec<u32>)
        ensures
            words@ == self.d_plane(),
    {
        &self.d
    }

    /// Bytes of all planes: 24 for each block.
    pub fn vram_bytes(&self) -> (bytes: usize)
        requires
            self.valid(),
            block_count(self.rows(), self.cols(), 32) * 24 <= usize::MAX,
        ensures
            bytes == block_count(self.rows(), self.cols(), 32) * 24,
            bytes == 4 * (self.qs_plane().len() + self.qh_plane().len() + self.d_plane().len()),
    {
        proof {
            lemma_blocks(self.rows(), self.cols(), 32);
        }
        self.n_out * (self.k / Q4_0_BLOCK) * 24
    }

    /// The value at `row` and `col`.
    pub fn value(&self, row: usize, col: usize) -> (value: Scaled)
        requires
            self.valid(),
            row < self.rows(),
            col < self.cols(),
        ensures
            value == q5_0_packed(self.qs_plane(), self.qh_plane(), self.d_plane(), row * self.cols() + col),
    {
        proof {
            lemma_place(self.rows(), self.cols(), 32, row as int, col as int);
        }
        let block: usize = row * (self.k / 32) + col / 32;
        let j: usize = col % 32;
        let byte: u32 = byte_at(&self.qs, block * 16 + j % 16);
        let high: u32 = bit_of(byte_at(&self.qh, block * 4 + j / 8), j % 8);
        Scaled { q: nibble_of(byte, j >= 16) as i32 + 16 * high as i32 - 16, scale: self.d[block] }
    }

    /// The launch over `m` rows.
    pub fn matmul_device(&self, m: usize) -> (launch: MatmulLaunch)
        requires
            m * self.rows() <= usize::MAX,
        ensures
            launch == MatmulLaunch::Flat(flat_grid(m * self.rows())),
    {
        MatmulLaunch::Flat(flat(m * self.n_out))
    }

    /// The launch over an input of `len` values in `m` rows.
    pub fn matmul_host(&self, len: usize, m: usize) -> (r: Result<MatmulLaunch>)
        requires
            m * self.rows() <= usize::MAX,
            m * self.cols() <= usize::MAX,
        ensures
            r is Ok <==> m != 0 && len == m * self.cols(),
            r matches Ok(launch) ==> launch == MatmulLaunch::Flat(flat_grid(m * self.rows())),
            r matches Err(e) ==> is_bad_shape(
                e,
                "q5_0 matmul input"@,
                seq![m, self.cols() as usize],
                seq![len],
            ),
    {
        match check_input("q5_0 matmul input", len, m, self.k) {
            Err(e) => Err(e),
            Ok(()) => Ok(self.matmul_device(m)),
        }
    }
}

/// A weight in packed Q8_0 form: `[n_out, k]` row by row, with blocks along
/// `k`.
pub struct Q80Weight {
    qs: Vec<u32>,
    d: Vec<u32>,
    n_out: usize,
    k: usize,
}

impl Q80Weight {
    /// Output features.
    pub closed spec fn rows(&self) -> int {
        self.n_out as int
    }

    /// Input features.
    pub closed spec fn cols(&self) -> int {
        self.k as int
    }

    /// Words of signed bytes, eight to a block.
    pub closed spec fn qs_plane(&self) -> Seq<u32> {
        self.qs@
    }

    /// Bit patterns of the scales, one to a block.
    pub closed spec fn d_plane(&self) -> Seq<u32> {
        self.d@
    }

    /// The planes hold every block of the matrix.
    pub open spec fn valid(&self) -> bool {
        &&& self.rows() >= 0
        &&& self.cols() > 0
        &&& self.cols() % 32 == 0
        &&& block_count(self.rows(), self.cols(), 32) * 34 <= usize::MAX
        &&& self.qs_plane().len() == block_count(self.rows(), self.cols(), 32) * 8
        &&& self.d_plane().len() == block_count(self.rows(), self.cols(), 32) * 1
    }

    /// Takes a raw Q8_0 stream apart. It must hold exactly the blocks of an
    /// `[n_out, k]` matrix.
    pub fn from_gguf_bytes(data: &[u8], n_out: usize, k: usize) -> (r: Result<Self>)
        ensures
            r is Ok <==> weight_fits(data@.len() as int, n_out as int, k as int, 32, 34)
                && data@.len() > 0,
            r matches Ok(w) ==> {
                &&& w.valid()
                &&& w.rows() == n_out
                &&& w.cols() == k
                &&& w.qs_plane() == plane(data@, 34, 2, 8)
                &&& w.d_plane() == singles(half_plane(data@, 34, 0, 1))
            },
            r matches Err(e) ==> if !weight_fits(
                data@.len() as int,
                n_out as int,
                k as int,
                32,
                34,
            ) {
                is_bad_shape(
                    e,
                    "q8_0 weight"@,
                    seq![n_out, k],
                    seq![data@.len() as usize],
                )
            } else {
                is_bad_shape(e, "q8_0 block stream"@, seq![34usize], seq![0usize])
            },
    {
        let len: usize = data.len();
        match check_weight(
            "q8_0 weight",
            len,
            n_out,
            k,
            k,
            Q4_0_BLOCK,
            Q8_0_BLOCK_BYTES,
        ) {
            Err(e) => Err(e),
            Ok(()) => {
                proof {
                    lemma_blocks(n_out as int, k as int, 32);
                    lemma_stream_blocks(len as int, n_out as int, k as int, 32, 34);
                }
                match repack_q8_0(data) {
                    Err(e) => Err(e),
                    Ok((qs, d)) => Ok(Q80Weight { qs, d, n_out, k }),
                }
            },
        }
    }

    /// Output features.
    pub fn n_out(&self) -> (n_out: usize)
        ensures
            n_out == self.rows(),
    {
        self.n_out
    }

    /// Input features.
    pub fn k(&self) -> (k: usize)
        ensures
            k == self.cols(),
    {
        self.k
    }

    /// Words of signed bytes, eight to a block.
    pub fn qs(&self) -> (words: &Vec<u32>)
        ensures
            words@ == self.qs_plane(),
    {
        &self.qs
    }

    /// Bit patterns of the scales, one to a block.
    pub fn d(&self) -> (words: &Vec<u32>)
        ensures
            words@ == self.d_plane(),
    {
        &self.d
    }

    /// Bytes of all planes: 36 for each block.
    pub fn vram_bytes(&self) -> (bytes: usize)
        requires
            self.valid(),
            block_count(self.rows(), self.cols(), 32) * 36 <= usize::MAX,
        ensures
            bytes == block_count(self.rows(), self.cols(), 32) * 36,
            bytes == 4 * (self.qs_plane().len() + self.d_plane().len()),
    {
        proof {
            lemma_blocks(self.rows(), self.cols(), 32);
        }
        self.n_out * (self.k / Q4_0_BLOCK) * 36
    }

    /// The value at `row` and `col`.
    pub fn value(&self, row: usize, col: usize) -> (value: Scaled)
        requires
            self.valid(),
            row < self.rows(),
            col < self.cols(),
        ensures
            value == q8_0_packed(self.qs_plane(), self.d_plane(), row * self.cols() + col),
    {
        proof {
            lemma_place(self.rows(), self.cols(), 32, row as int, col as int);
        }
        let block: usize = row * (self.k / 32) + col / 32;
        let j: usize = col % 32;
        Scaled { q: i8_at(&self.qs, block * 32 + j), scale: self.d[block] }
    }

    /// The launch over `m` rows: more than one row takes the tiled kernel where
    /// it is enabled.
    pub fn matmul_device(&self, m: usize, tiles: bool) -> (launch: MatmulLaunch)
        requires
            m * self.rows() <= usize::MAX,
        ensures
            launch == (if m > 1 && tiles {
                MatmulLaunch::Tiled(tiled_grid(self.rows(), m as int))
            } else {
                MatmulLaunch::Flat(flat_grid(m * self.rows()))
            }),
    {
        if m > 1 && tiles {
            MatmulLaunch::Tiled(tiled(self.n_out, m))
        } else {
            MatmulLaunch::Flat(flat(m * self.n_out))
        }
    }

    /// The launch over an input of `len` values in `m` rows.
    pub fn matmul_host(&self, len: usize, m: usize, tiles: bool) -> (r: Result<MatmulLaunch>)
        requires
            m * self.rows() <= usize::MAX,
            m * self.cols() <= usize::MAX,
        ensures
            r is Ok <==> m != 0 && len == m * self.cols(),
            r matches Ok(launch) ==> launch == (if m > 1 && tiles {
                MatmulLaunch::Tiled(tiled_grid(self.rows(), m as int))
            } else {
                MatmulLaunch::Flat(flat_grid(m * self.rows()))
            }),
            r matches Err(e) ==> is_bad_shape(
                e,
                "q8_0 matmul input"@,
                seq![m, self.cols() as usize],
                seq![len],
            ),
    {
        match check_input("q8_0 matmul input", len, m, self.k) {
            Err(e) => Err(e),
            Ok(()) => Ok(self.matmul_device(m, tiles)),
        }
    }

    /// The launch that looks up `n_tokens` rows.
    pub fn gather_rows_device(&self, n_tokens: usize) -> (grid: Grid)
        requires
            n_tokens * self.cols() <= usize::MAX,
        ensures
            grid == flat_grid(n_tokens * self.cols()),
    {
        flat(n_tokens * self.k)
    }
}

/// A weight in packed Q4_K form: `[n_out, k]` row by row, with blocks along
/// `k`.
pub struct Q4KWeight {
    qs: Vec<u32>,
    dd: Vec<u32>,
    scales: Vec<u32>,
    n_out: usize,
    k: usize,
}

impl Q4KWeight {
    /// Output features.
    pub closed spec fn rows(&self) -> int {
        self.n_out as int
    }

    /// Input features.
    pub closed spec fn cols(&self) -> int {
        self.k as int
    }

    /// Words of nibbles, 32 to a superblock.
    pub closed spec fn qs_plane(&self) -> Seq<u32> {
        self.qs@
    }

    /// Bit patterns of the scales of scales and of minima, by turns.
    pub closed spec fn dd_plane(&self) -> Seq<u32> {
        self.dd@
    }

    /// Words of 6-bit scales and minima, three to a superblock.
    pub closed spec fn scales_plane(&self) -> Seq<u32> {
        self.scales@
    }

    /// The planes hold every block of the matrix.
    pub open spec fn valid(&self) -> bool {
        &&& self.rows() >= 0
        &&& self.cols() > 0
        &&& self.cols() % 256 == 0
        &&& block_count(self.rows(), self.cols(), 256) * 144 <= usize::MAX
        &&& self.qs_plane().len() == block_count(self.rows(), self.cols(), 256) * 32
        &&& self.dd_plane().len() == block_count(self.rows(), self.cols(), 256) * 2
        &&& self.scales_plane().len() == block_count(self.rows(), self.cols(), 256) * 3
    }

    /// Takes a raw Q4_K stream apart. It must hold exactly the blocks of an
    /// `[n_out, k]` matrix.
    pub fn from_gguf_bytes(data: &[u8], n_out: usize, k: usize) -> (r: Result<Self>)
        ensures
            r is Ok <==> weight_fits(data@.len() as int, n_out as int, k as int, 256, 144)
                && data@.len() > 0,
            r matches Ok(w) ==> {
                &&& w.valid()
                &&& w.rows() == n_out
                &&& w.cols() == k
                &&& w.qs_plane() == plane(data@, 144, 16, 32)
                &&& w.dd_plane() == singles(half_plane(data@, 144, 0, 2))
                &&& w.scales_plane() == plane(data@, 144, 4, 3)
            },
            r matches Err(e) ==> if !weight_fits(
                data@.len() as int,
                n_out as int,
                k as int,
                256,
                144,
            ) {
                is_bad_shape(
                    e,
                    "q4_k weight"@,
                    seq![n_out, k],
                    seq![data@.len() as usize],
                )
            } else {
                is_bad_shape(e, "q4_k superblock stream"@, seq![144usize], seq![0usize])
            },
    {
        let len: usize = data.len();
        match check_weight(
            "q4_k weight",
            len,
            n_out,
            k,
            k,
            K_SUPERBLOCK,
            Q4_K_BLOCK_BYTES,
        ) {
            Err(e) => Err(e),
            Ok(()) => {
                proof {
                    lemma_blocks(n_out as int, k as int, 256);
                    lemma_stream_blocks(len as int, n_out as int, k as int, 256, 144);
                }
                match repack_q4_k(data) {
                    Err(e) => Err(e),
                    Ok((qs, dd, scales)) => Ok(Q4KWeight { qs, dd, scales, n_out, k }),
                }
            },
        }
    }

    /// Output features.
    pub fn n_out(&self) -> (n_out: usize)
        ensures
            n_out == self.rows(),
    {
        self.n_out
    }

    /// Input features.
    pub fn k(&self) -> (k: usize)
        ensures
            k == self.cols(),
    {
        self.k
    }

    /// Words of nibbles, 32 to a superblock.
    pub fn qs(&self) -> (words: &Vec<u32>)
        ensures
            words@ == self.qs_plane(),
    {
        &self.qs
    }

    /// Bit patterns of the scales of scales and of minima, by turns.
    pub fn dd(&self) -> (words: &Vec<u32>)
        ensures
            words@ == self.dd_plane(),
    {
        &self.dd
    }

    /// Words of 6-bit scales and minima, three to a superblock.
    pub fn scales(&self) -> (words: &Vec<u32>)
        ensures
            words@ == self.scales_plane(),
    {
        &self.scales
    }

    /// Bytes of all planes: 148 for each superblock.
    pub fn vram_bytes(&self) -> (bytes: usize)
        requires
            self.valid(),
            block_count(self.rows(), self.cols(), 256) * 148 <= usize::MAX,
        ensures
            bytes == block_count(self.rows(), self.cols(), 256) * 148,
            bytes == 4 * (self.qs_plane().len() + self.dd_plane().len() + self.scales_plane().len()),
    {
        proof {
            lemma_blocks(self.rows(), self.cols(), 256);
        }
        self.n_out * (self.k / K_SUPERBLOCK) * 148
    }

    /// The value at `row` and `col`.
    pub fn value(&self, row: usize, col: usize) -> (value: ScaledMin)
        requires
            self.valid(),
            row < self.rows(),
            col < self.cols(),
        ensures
            value == q4_k_packed(self.qs_plane(), self.dd_plane(), self.scales_plane(), row * self.cols() + col),
    {
        proof {
            lemma_place(self.rows(), self.cols(), 256, row as int, col as int);
        }
        let sb: usize = row * (self.k / 256) + col / 256;
        let r: usize = col % 256;
        let j: usize = r / 32;
        let byte: u32 = byte_at(&self.qs, sb * 128 + r / 64 * 32 + r % 32);
        ScaledMin {
            q: nibble_of(byte, j % 2 == 1),
            sc: k4_scale(&self.scales, sb * 12, j),
            mn: k4_min(&self.scales, sb * 12, j),
            d: self.dd[sb * 2],
            dmin: self.dd[sb * 2 + 1],
        }
    }

    /// The launch over `m` rows: more than one row takes the tiled kernel where
    /// it is enabled.
    pub fn matmul_device(&self, m: usize, tiles: bool) -> (launch: MatmulLaunch)
        requires
            m * self.rows() <= usize::MAX,
        ensures
            launch == (if m > 1 && tiles {
                MatmulLaunch::Tiled(tiled_grid(self.rows(), m as int))
            } else {
                MatmulLaunch::Flat(flat_grid(m * self.rows()))
            }),
    {
        if m > 1 && tiles {
            MatmulLaunch::Tiled(tiled(self.n_out, m))
        } else {
            MatmulLaunch::Flat(flat(m * self.n_out))
        }
    }

    /// The launch over an input of `len` values in `m` rows.
    pub fn matmul_host(&self, len: usize, m: usize, tiles: bool) -> (r: Result<MatmulLaunch>)
        requires
            m * self.rows() <= usize::MAX,
            m * self.cols() <= usize::MAX,
        ensures
            r is Ok <==> m != 0 && len == m * self.cols(),
            r matches Ok(launch) ==> launch == (if m > 1 && tiles {
                MatmulLaunch::Tiled(tiled_grid(self.rows(), m as int))
            } else {
                MatmulLaunch::Flat(flat_grid(m * self.rows()))
            }),
            r matches Err(e) ==> is_bad_shape(
                e,
                "q4_k matmul input"@,
                seq![m, self.cols() as usize],
                seq![len],
            ),
    {
        match check_input("q4_k matmul input", len, m, self.k) {
            Err(e) => Err(e),
            Ok(()) => Ok(self.matmul_device(m, tiles)),
        }
    }

    /// The launch that looks up `n_tokens` rows.
    pub fn gather_rows_device(&self, n_tokens: usize) -> (grid: Grid)
        requires
            n_tokens * self.cols() <= usize::MAX,
        ensures
            grid == flat_grid(n_tokens * self.cols()),
    {
        flat(n_tokens * self.k)
    }
}

/// A weight in packed Q5_K form: `[n_out, k]` row by row, with blocks along
/// `k`.
pub struct Q5KWeight {
    qs: Vec<u32>,
    qh: Vec<u32>,
    dd: Vec<u32>,
    scales: Vec<u32>,
    n_out: usize,
    k: usize,
}

impl Q5KWeight {
    /// Output features.
    pub closed spec fn rows(&self) -> int {
        self.n_out as int
    }

    /// Input features.
    pub closed spec fn cols(&self) -> int {
        self.k as int
    }

    /// Words of nibbles, 32 to a superblock.
    pub closed spec fn qs_plane(&self) -> Seq<u32> {
        self.qs@
    }

    /// Words of high bits, eight to a superblock.
    pub closed spec fn qh_plane(&self) -> Seq<u32> {
        self.qh@
    }

    /// Bit patterns of the scales of scales and of minima, by turns.
    pub closed spec fn dd_plane(&self) -> Seq<u32> {
        self.dd@
    }

    /// Words of 6-bit scales and minima, three to a superblock.
    pub closed spec fn scales_plane(&self) -> Seq<u32> {
        self.scales@
    }

    /// The planes hold every block of the matrix.
    pub open spec fn valid(&self) -> bool {
        &&& self.rows() >= 0
        &&& self.cols() > 0
        &&& self.cols() % 256 == 0
        &&& block_count(self.rows(), self.cols(), 256) * 176 <= usize::MAX
        &&& self.qs_plane().len() == block_count(self.rows(), self.cols(), 256) * 32
        &&& self.qh_plane().len() == block_count(self.rows(), self.cols(), 256) * 8
        &&& self.dd_plane().len() == block_count(self.rows(), self.cols(), 256) * 2
        &&& self.scales_plane().len() == block_count(self.rows(), self.cols(), 256) * 3
    }

    /// Takes a raw Q5_K stream apart. It must hold exactly the blocks of an
    /// `[n_out, k]` matrix.
    pub fn from_gguf_bytes(data: &[u8], n_out: usize, k: usize) -> (r: Result<Self>)
        ensures
            r is Ok <==> weight_fits(data@.len() as int, n_out as int, k as int, 256, 176)
                && data@.len() > 0,
            r matches Ok(w) ==> {
                &&& w.valid()
                &&& w.rows() == n_out
                &&& w.cols() == k
                &&& w.qs_plane() == plane(data@, 176, 48, 32)
                &&& w.qh_plane() == plane(data@, 176, 16, 8)
                &&& w.dd_plane() == singles(half_plane(data@, 176, 0, 2))
                &&& w.scales_plane() == plane(data@, 176, 4, 3)
            },
            r matches Err(e) ==> if !weight_fits(
                data@.len() as int,
                n_out as int,
                k as int,
                256,
                176,
            ) {
                is_bad_shape(
                    e,
                    "q5_k weight"@,
                    seq![n_out, k],
                    seq![data@.len() as usize],
                )
            } else {
                is_bad_shape(e, "q5_k superblock stream"@, seq![176usize], seq![0usize])
            },
    {
        let len: usize = data.len();
        match check_weight(
            "q5_k weight",
            len,
            n_out,
            k,
            k,
            K_SUPERBLOCK,
            Q5_K_BLOCK_BYTES,
        ) {
            Err(e) => Err(e),
            Ok(()) => {
                proof {
                    lemma_blocks(n_out as int, k as int, 256);
                    lemma_stream_blocks(len as int, n_out as int, k as int, 256, 176);
                }
                match repack_q5_k(data) {
                    Err(e) => Err(e),
                    Ok((qs, qh, dd, scales)) => Ok(Q5KWeight { qs, qh, dd, scales, n_out, k }),
                }
            },
        }
    }

    /// Output features.
    pub fn n_out(&self) -> (n_out: usize)
        ensures
            n_out == self.rows(),
    {
        self.n_out
    }

    /// Input features.
    pub fn k(&self) -> (k: usize)
        ensures
            k == self.cols(),
    {
        self.k
    }

    /// Words of nibbles, 32 to a superblock.
    pub fn qs(&self) -> (words: &Vec<u32>)
        ensures
            words@ == self.qs_plane(),
    {
        &self.qs
    }

    /// Words of high bits, eight to a superblock.
    pub fn qh(&self) -> (words: &Vec<u32>)
        ensures
            words@ == self.qh_plane(),
    {
        &self.qh
    }

    /// Bit patterns of the scales of scales and of minima, by turns.
    pub fn dd(&self) -> (words: &Vec<u32>)
        ensures
            words@ == self.dd_plane(),
    {
        &self.dd
    }

    /// Words of 6-bit scales and minima, three to a superblock.
    pub fn scales(&self) -> (words: &Vec<u32>)
        ensures
            words@ == self.scales_plane(),
    {
        &self.scales
    }

    /// Bytes of all planes: 180 for each superblock.
    pub fn vram_bytes(&self) -> (bytes: usize)
        requires
            self.valid(),
            block_count(self.rows(), self.cols(), 256) * 180 <= usize::MAX,
        ensures
            bytes == block_count(self.rows(), self.cols(), 256) * 180,
            bytes == 4 * (self.qs_plane().len() + self.qh_plane().len() + self.dd_plane().len() + self.scales_plane().len()),
    {
        proof {
            lemma_blocks(self.rows(), self.cols(), 256);
        }
        self.n_out * (self.k / K_SUPERBLOCK) * 180
    }

    /// The value at `row` and `col`.
    pub fn value(&self, row: usize, col: usize) -> (value: ScaledMin)
        requires
            self.valid(),
            row < self.rows(),
            col < self.cols(),
        ensures
            value == q5_k_packed(self.qs_plane(), self.qh_plane(), self.dd_plane(), self.scales_plane(), row * self.cols() + col),
    {
        proof {
            lemma_place(self.rows(), self.cols(), 256, row as int, col as int);
        }
        let sb: usize = row * (self.k / 256) + col / 256;
        let r: usize = col % 256;
        let j: usize = r / 32;
        let byte: u32 = byte_at(&self.qs, sb * 128 + r / 64 * 32 + r % 32);
        let high: u32 = bit_of(byte_at(&self.qh, sb * 32 + r % 32), j);
        ScaledMin {
            q: nibble_of(byte, j % 2 == 1) + 16 * high,
            sc: k4_scale(&self.scales, sb * 12, j),
            mn: k4_min(&self.scales, sb * 12, j),
            d: self.dd[sb * 2],
            dmin: self.dd[sb * 2 + 1],
        }
    }

    /// The launch over `m` rows.
    pub fn matmul_device(&self, m: usize) -> (launch: MatmulLaunch)
        requires
            m * self.rows() <= usize::MAX,
        ensures
            launch == MatmulLaunch::Flat(flat_grid(m * self.rows())),
    {
        MatmulLaunch::Flat(flat(m * self.n_out))
    }

    /// The launch over an input of `len` values in `m` rows.
    pub fn matmul_host(&self, len: usize, m: usize) -> (r: Result<MatmulLaunch>)
        requires
            m * self.rows() <= usize::MAX,
            m * self.cols() <= usize::MAX,
        ensures
            r is Ok <==> m != 0 && len == m * self.cols(),
            r matches Ok(launch) ==> launch == MatmulLaunch::Flat(flat_grid(m * self.rows())),
            r matches Err(e) ==> is_bad_shape(
                e,
                "q5_k matmul input"@,
                seq![m, self.cols() as usize],
                seq![len],
            ),
    {
        match check_input("q5_k matmul input", len, m, self.k) {
            Err(e) => Err(e),
            Ok(()) => Ok(self.matmul_device(m)),
        }
    }
}

/// A weight in packed Q6_K form: `[n_out, k]` row by row, with blocks along
/// `k`.
pub struct Q6KWeight {
    ql: Vec<u32>,
    qh: Vec<u32>,
    sc: Vec<u32>,
    d: Vec<u32>,
    n_out: usize,
    k: usize,
}

impl Q6KWeight {
    /// Output features.
    pub closed spec fn rows(&self) -> int {
        self.n_out as int
    }

    /// Input features.
    pub closed spec fn cols(&self) -> int {
        self.k as int
    }

    /// Words of nibbles, 32 to a superblock.
    pub closed spec fn ql_plane(&self) -> Seq<u32> {
        self.ql@
    }

    /// Words of high bits, 16 to a superblock.
    pub closed spec fn qh_plane(&self) -> Seq<u32> {
        self.qh@
    }

    /// Words of signed scales, four to a superblock.
    pub closed spec fn sc_plane(&self) -> Seq<u32> {
        self.sc@
    }

    /// Bit patterns of the scales, one to a superblock.
    pub closed spec fn d_plane(&self) -> Seq<u32> {
        self.d@
    }

    /// The planes hold every block of the matrix.
    pub open spec fn valid(&self) -> bool {
        &&& self.rows() >= 0
        &&& self.cols() > 0
        &&& self.cols() % 256 == 0
        &&& block_count(self.rows(), self.cols(), 256) * 210 <= usize::MAX
        &&& self.ql_plane().len() == block_count(self.rows(), self.cols(), 256) * 32
        &&& self.qh_plane().len() == block_count(self.rows(), self.cols(), 256) * 16
        &&& self.sc_plane().len() == block_count(self.rows(), self.cols(), 256) * 4
        &&& self.d_plane().len() == block_count(self.rows(), self.cols(), 256) * 1
    }

    /// Takes a raw Q6_K stream apart. It must hold exactly the blocks of an
    /// `[n_out, k]` matrix.
    pub fn from_gguf_bytes(data: &[u8], n_out: usize, k: usize) -> (r: Result<Self>)
        ensures
            r is Ok <==> weight_fits(data@.len() as int, n_out as int, k as int, 256, 210)
                && data@.len() > 0,
            r matches Ok(w) ==> {
                &&& w.valid()
                &&& w.rows() == n_out
                &&& w.cols() == k
                &&& w.ql_plane() == plane(data@, 210, 0, 32)
                &&& w.qh_plane() == plane(data@, 210, 128, 16)
                &&& w.sc_plane() == plane(data@, 210, 192, 4)
                &&& w.d_plane() == singles(half_plane(data@, 210, 208, 1))
            },
            r matches Err(e) ==> if !weight_fits(
                data@.len() as int,
                n_out as int,
                k as int,
                256,
                210,
            ) {
                is_bad_shape(
                    e,
                    "q6_k weight"@,
                    seq![n_out, k],
                    seq![data@.len() as usize],
                )
            } else {
                is_bad_shape(e, "q6_k superblock stream"@, seq![210usize], seq![0usize])
            },
    {
        let len: usize = data.len();
        match check_weight(
            "q6_k weight",
            len,
            n_out,
            k,
            k,
            K_SUPERBLOCK,
            Q6_K_BLOCK_BYTES,
        ) {
            Err(e) => Err(e),
            Ok(()) => {
                proof {
                    lemma_blocks(n_out as int, k as int, 256);
                    lemma_stream_blocks(len as int, n_out as int, k as int, 256, 210);
                }
                match repack_q6_k(data) {
                    Err(e) => Err(e),
                    Ok((ql, qh, sc, d)) => Ok(Q6KWeight { ql, qh, sc, d, n_out, k }),
                }
            },
        }
    }

    /// Output features.
    pub fn n_out(&self) -> (n_out: usize)
        ensures
            n_out == self.rows(),
    {
        self.n_out
    }

    /// Input features.
    pub fn k(&self) -> (k: usize)
        ensures
            k == self.cols(),
    {
        self.k
    }

    /// Words of nibbles, 32 to a superblock.
    pub fn ql(&self) -> (words: &Vec<u32>)
        ensures
            words@ == self.ql_plane(),
    {
        &self.ql
    }

    /// Words of high bits, 16 to a superblock.
    pub fn qh(&self) -> (words: &Vec<u32>)
        ensures
            words@ == self.qh_plane(),
    {
        &self.qh
    }

    /// Words of signed scales, four to a superblock.
    pub fn sc(&self) -> (words: &Vec<u32>)
        ensures
            words@ == self.sc_plane(),
    {
        &self.sc
    }

    /// Bit patterns of the scales, one to a superblock.
    pub fn d(&self) -> (words: &Vec<u32>)
        ensures
            words@ == self.d_plane(),
    {
        &self.d
    }

    /// Bytes of all planes: 212 for each superblock.
    pub fn vram_bytes(&self) -> (bytes: usize)
        requires
            self.valid(),
            block_count(self.rows(), self.cols(), 256) * 212 <= usize::MAX,
        ensures
            bytes == block_count(self.rows(), self.cols(), 256) * 212,
            bytes == 4 * (self.ql_plane().len() + self.qh_plane().len() + self.sc_plane().len() + self.d_plane().len()),
    {
        proof {
            lemma_blocks(self.rows(), self.cols(), 256);
        }
        self.n_out * (self.k / K_SUPERBLOCK) * 212
    }

    /// The value at `row` and `col`.
    pub fn value(&self, row: usize, col: usize) -> (value: ScaledTwice)
        requires
            self.valid(),
            row < self.rows(),
            col < self.cols(),
        ensures
            value == q6_k_packed(self.ql_plane(), self.qh_plane(), self.sc_plane(), self.d_plane(), row * self.cols() + col),
    {
        proof {
            lemma_place(self.rows(), self.cols(), 256, row as int, col as int);
        }
        let sb: usize = row * (self.k / 256) + col / 256;
        let r: usize = col % 256;
        let half: usize = r / 128;
        let t: usize = r % 128 / 32;
        let l: usize = r % 32;
        let byte: u32 = byte_at(&self.ql, sb * 128 + (half * 64 + t % 2 * 32 + l));
        let power: u32 = power_of_two(2 * t);
        let high: u32 = byte_at(&self.qh, sb * 64 + (half * 32 + l)) / power % 4;
        ScaledTwice {
            q: nibble_of(byte, t >= 2) as i32 + 16 * high as i32 - 32,
            sc: i8_at(&self.sc, sb * 16 + (half * 8 + l / 16 + 2 * t)),
            d: self.d[sb],
        }
    }

    /// The launch over `m` rows.
    pub fn matmul_device(&self, m: usize) -> (launch: MatmulLaunch)
        requires
            m * self.rows() <= usize::MAX,
        ensures
            launch == MatmulLaunch::Flat(flat_grid(m * self.rows())),
    {
        MatmulLaunch::Flat(flat(m * self.n_out))
    }

    /// The launch over an input of `len` values in `m` rows.
    pub fn matmul_host(&self, len: usize, m: usize) -> (r: Result<MatmulLaunch>)
        requires
            m * self.rows() <= usize::MAX,
            m * self.cols() <= usize::MAX,
        ensures
            r is Ok <==> m != 0 && len == m * self.cols(),
            r matches Ok(launch) ==> launch == MatmulLaunch::Flat(flat_grid(m * self.rows())),
            r matches Err(e) ==> is_bad_shape(
                e,
                "q6_k matmul input"@,
                seq![m, self.cols() as usize],
                seq![len],
            ),
    {
        match check_input("q6_k matmul input", len, m, self.k) {
            Err(e) => Err(e),
            Ok(()) => Ok(self.matmul_device(m)),
        }
    }

    /// The launch that looks up `n_tokens` rows.
    pub fn gather_rows_device(&self, n_tokens: usize) -> (grid: Grid)
        requires
            n_tokens * self.cols() <= usize::MAX,
        ensures
            grid == flat_grid(n_tokens * self.cols()),
    {
        flat(n_tokens * self.k)
    }
}

} // verus!
