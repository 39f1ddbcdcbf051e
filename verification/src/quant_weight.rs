//! A packed weight of any format.

use vstd::prelude::*;

use crate::arith::ceil_div;
use crate::error::{is_bad_shape, ModelError, Result};
use crate::format_laws::{
    law_q4_0_reads_back, law_q4_k_reads_back, law_q5_0_reads_back, law_q5_k_reads_back,
    law_q6_k_reads_back, law_q8_0_reads_back,
};
use crate::formats::{
    q4_0_packed, q4_0_raw, q4_k_packed, q4_k_raw, q5_0_packed, q5_0_raw, q5_k_packed, q5_k_raw,
    q6_k_packed, q6_k_raw, q8_0_packed, q8_0_raw, QuantFormat,
};
use crate::grid::{gemv_workgroups, Grid, GEMV_ROWS};
use crate::weights::{
    block_count, flat_grid, tiled_grid, weight_fits, MatmulLaunch, Q40Weight, Q4KWeight,
    Q50Weight, Q5KWeight, Q6KWeight, Q80Weight,
};

verus! {

/// A packed weight; the format is told apart once per call, not per value.
pub enum QuantWeight {
    /// Q4_0.
    Q40(Q40Weight),
    /// Q5_0.
    Q50(Q50Weight),
    /// Q8_0.
    Q80(Q80Weight),
    /// Q4_K.
    Q4K(Q4KWeight),
    /// Q5_K.
    Q5K(Q5KWeight),
    /// Q6_K.
    Q6K(Q6KWeight),
}

/// Values per block of a format.
pub open spec fn block_values(format: QuantFormat) -> int {
    match format {
        QuantFormat::Q4_0 | QuantFormat::Q5_0 | QuantFormat::Q8_0 => 32,
        QuantFormat::Q4K | QuantFormat::Q5K | QuantFormat::Q6K => 256,
    }
}

/// Bytes per block of a format.
pub open spec fn block_bytes(format: QuantFormat) -> int {
    match format {
        QuantFormat::Q4_0 => 18,
        QuantFormat::Q5_0 => 22,
        QuantFormat::Q8_0 => 34,
        QuantFormat::Q4K => 144,
        QuantFormat::Q5K => 176,
        QuantFormat::Q6K => 210,
    }
}

/// Bytes per block once it is split into planes.
pub open spec fn plane_bytes(format: QuantFormat) -> int {
    match format {
        QuantFormat::Q4_0 => 20,
        QuantFormat::Q5_0 => 24,
        QuantFormat::Q8_0 => 36,
        QuantFormat::Q4K => 148,
        QuantFormat::Q5K => 180,
        QuantFormat::Q6K => 212,
    }
}

/// What a weight of a format is called in errors.
pub open spec fn weight_name(format: QuantFormat) -> Seq<char> {
    match format {
        QuantFormat::Q4_0 => "q4_0 weight"@,
        QuantFormat::Q5_0 => "q5_0 weight"@,
        QuantFormat::Q8_0 => "q8_0 weight"@,
        QuantFormat::Q4K => "q4_k weight"@,
        QuantFormat::Q5K => "q5_k weight"@,
        QuantFormat::Q6K => "q6_k weight"@,
    }
}

/// What a stream of a format is called in errors.
pub open spec fn stream_name(format: QuantFormat) -> Seq<char> {
    match format {
        QuantFormat::Q4_0 => "q4_0 block stream"@,
        QuantFormat::Q5_0 => "q5_0 block stream"@,
        QuantFormat::Q8_0 => "q8_0 block stream"@,
        QuantFormat::Q4K => "q4_k superblock stream"@,
        QuantFormat::Q5K => "q5_k superblock stream"@,
        QuantFormat::Q6K => "q6_k superblock stream"@,
    }
}

/// The error for a stream of `len` bytes that is no `[n_out, k]` weight: its
/// length is wrong, or it is empty.
pub open spec fn weight_refused(
    format: QuantFormat,
    len: int,
    n_out: usize,
    k: usize,
    error: ModelError,
) -> bool {
    if !weight_fits(len, n_out as int, k as int, block_values(format), block_bytes(format)) {
        is_bad_shape(
            error,
            weight_name(format),
            seq![
                n_out,
                if format is Q4_0 {
                    (k as int / 32 * 18) as usize
                } else {
                    k
                },
            ],
            seq![len as usize],
        )
    } else {
        is_bad_shape(error, stream_name(format), seq![block_bytes(format) as usize], seq![0usize])
    }
}

/// Formats whose rows can be looked up in packed form.
pub open spec fn gathers(format: QuantFormat) -> bool {
    format is Q8_0 || format is Q4K || format is Q6K
}

/// Formats with a tiled kernel.
pub open spec fn tiles_rows(format: QuantFormat) -> bool {
    format is Q8_0 || format is Q4K
}

/// The launch of a product of `m` rows with an `[n_out, k]` weight: a single
/// row of a format with a decode kernel takes that one where it is enabled;
/// several rows of a format with a tiled kernel take that one where it is
/// enabled.
pub open spec fn route(
    format: QuantFormat,
    n_out: int,
    m: int,
    gemv: bool,
    tiles: bool,
) -> MatmulLaunch {
    if gathers(format) && m == 1 && gemv {
        MatmulLaunch::Gemv(ceil_div(n_out as u32 as int, GEMV_ROWS as int) as u32)
    } else if tiles_rows(format) && m > 1 && tiles {
        MatmulLaunch::Tiled(tiled_grid(n_out, m))
    } else {
        MatmulLaunch::Flat(flat_grid(m * n_out))
    }
}

impl QuantWeight {
    /// Format of the weight.
    pub open spec fn format(&self) -> QuantFormat {
        match self {
            QuantWeight::Q40(_) => QuantFormat::Q4_0,
            QuantWeight::Q50(_) => QuantFormat::Q5_0,
            QuantWeight::Q80(_) => QuantFormat::Q8_0,
            QuantWeight::Q4K(_) => QuantFormat::Q4K,
            QuantWeight::Q5K(_) => QuantFormat::Q5K,
            QuantWeight::Q6K(_) => QuantFormat::Q6K,
        }
    }

    /// Output features.
    pub open spec fn rows(&self) -> int {
        match self {
            QuantWeight::Q40(w) => w.rows(),
            QuantWeight::Q50(w) => w.rows(),
            QuantWeight::Q80(w) => w.rows(),
            QuantWeight::Q4K(w) => w.rows(),
            QuantWeight::Q5K(w) => w.rows(),
            QuantWeight::Q6K(w) => w.rows(),
        }
    }

    /// Input features.
    pub open spec fn cols(&self) -> int {
        match self {
            QuantWeight::Q40(w) => w.cols(),
            QuantWeight::Q50(w) => w.cols(),
            QuantWeight::Q80(w) => w.cols(),
            QuantWeight::Q4K(w) => w.cols(),
            QuantWeight::Q5K(w) => w.cols(),
            QuantWeight::Q6K(w) => w.cols(),
        }
    }

    /// The planes hold every block of the matrix.
    pub open spec fn valid(&self) -> bool {
        match self {
            QuantWeight::Q40(w) => w.valid(),
            QuantWeight::Q50(w) => w.valid(),
            QuantWeight::Q80(w) => w.valid(),
            QuantWeight::Q4K(w) => w.valid(),
            QuantWeight::Q5K(w) => w.valid(),
            QuantWeight::Q6K(w) => w.valid(),
        }
    }

    /// The weight is what its format's own constructor makes of the stream.
    pub open spec fn holds(&self, data: Seq<u8>) -> bool {
        match self {
            QuantWeight::Q40(w) => w.qs_plane() == crate::blocks::plane(data, 18, 2, 4)
                && w.d_plane() == crate::formats::singles(
                crate::blocks::half_plane(data, 18, 0, 1),
            ),
            QuantWeight::Q50(w) => w.qs_plane() == crate::blocks::plane(data, 22, 6, 4)
                && w.qh_plane() == crate::blocks::plane(data, 22, 2, 1) && w.d_plane()
                == crate::formats::singles(crate::blocks::half_plane(data, 22, 0, 1)),
            QuantWeight::Q80(w) => w.qs_plane() == crate::blocks::plane(data, 34, 2, 8)
                && w.d_plane() == crate::formats::singles(
                crate::blocks::half_plane(data, 34, 0, 1),
            ),
            QuantWeight::Q4K(w) => w.qs_plane() == crate::blocks::plane(data, 144, 16, 32)
                && w.dd_plane() == crate::formats::singles(
                crate::blocks::half_plane(data, 144, 0, 2),
            ) && w.scales_plane() == crate::blocks::plane(data, 144, 4, 3),
            QuantWeight::Q5K(w) => w.qs_plane() == crate::blocks::plane(data, 176, 48, 32)
                && w.qh_plane() == crate::blocks::plane(data, 176, 16, 8) && w.dd_plane()
                == crate::formats::singles(crate::blocks::half_plane(data, 176, 0, 2))
                && w.scales_plane() == crate::blocks::plane(data, 176, 4, 3),
            QuantWeight::Q6K(w) => w.ql_plane() == crate::blocks::plane(data, 210, 0, 32)
                && w.qh_plane() == crate::blocks::plane(data, 210, 128, 16) && w.sc_plane()
                == crate::blocks::plane(data, 210, 192, 4) && w.d_plane()
                == crate::formats::singles(crate::blocks::half_plane(data, 210, 208, 1)),
        }
    }

    /// Builds a weight from a raw stream of `format`.
    pub fn from_quant_tensor(format: QuantFormat, data: &[u8], n_out: usize, k: usize) -> (r:
        Result<Self>)
        ensures
            r is Ok <==> weight_fits(
                data@.len() as int,
                n_out as int,
                k as int,
                block_values(format),
                block_bytes(format),
            ) && data@.len() > 0,
            r matches Ok(w) ==> {
                &&& w.format() == format
                &&& w.valid()
                &&& w.rows() == n_out
                &&& w.cols() == k
                &&& w.holds(data@)
            },
            r matches Err(e) ==> weight_refused(format, data@.len() as int, n_out, k, e),
    {
        match format {
            QuantFormat::Q4_0 => match Q40Weight::from_gguf_bytes(data, n_out, k) {
                Ok(w) => Ok(QuantWeight::Q40(w)),
                Err(e) => Err(e),
            },
            QuantFormat::Q5_0 => match Q50Weight::from_gguf_bytes(data, n_out, k) {
                Ok(w) => Ok(QuantWeight::Q50(w)),
                Err(e) => Err(e),
            },
            QuantFormat::Q8_0 => match Q80Weight::from_gguf_bytes(data, n_out, k) {
                Ok(w) => Ok(QuantWeight::Q80(w)),
                Err(e) => Err(e),
            },
            QuantFormat::Q4K => match Q4KWeight::from_gguf_bytes(data, n_out, k) {
                Ok(w) => Ok(QuantWeight::Q4K(w)),
                Err(e) => Err(e),
            },
            QuantFormat::Q5K => match Q5KWeight::from_gguf_bytes(data, n_out, k) {
                Ok(w) => Ok(QuantWeight::Q5K(w)),
                Err(e) => Err(e),
            },
            QuantFormat::Q6K => match Q6KWeight::from_gguf_bytes(data, n_out, k) {
                Ok(w) => Ok(QuantWeight::Q6K(w)),
                Err(e) => Err(e),
            },
        }
    }

    /// Output features.
    pub fn n_out(&self) -> (n_out: usize)
        ensures
            n_out == self.rows(),
    {
        match self {
            QuantWeight::Q40(w) => w.n_out(),
            QuantWeight::Q50(w) => w.n_out(),
            QuantWeight::Q80(w) => w.n_out(),
            QuantWeight::Q4K(w) => w.n_out(),
            QuantWeight::Q5K(w) => w.n_out(),
            QuantWeight::Q6K(w) => w.n_out(),
        }
    }

    /// Input features.
    pub fn k(&self) -> (k: usize)
        ensures
            k == self.cols(),
    {
        match self {
            QuantWeight::Q40(w) => w.k(),
            QuantWeight::Q50(w) => w.k(),
            QuantWeight::Q80(w) => w.k(),
            QuantWeight::Q4K(w) => w.k(),
            QuantWeight::Q5K(w) => w.k(),
            QuantWeight::Q6K(w) => w.k(),
        }
    }

    /// Bytes of all planes.
    pub fn vram_bytes(&self) -> (bytes: usize)
        requires
            self.valid(),
            block_count(self.rows(), self.cols(), block_values(self.format())) * plane_bytes(
                self.format(),
            ) <= usize::MAX,
        ensures
            bytes == block_count(self.rows(), self.cols(), block_values(self.format()))
                * plane_bytes(self.format()),
    {
        match self {
            QuantWeight::Q40(w) => w.vram_bytes(),
            QuantWeight::Q50(w) => w.vram_bytes(),
            QuantWeight::Q80(w) => w.vram_bytes(),
            QuantWeight::Q4K(w) => w.vram_bytes(),
            QuantWeight::Q5K(w) => w.vram_bytes(),
            QuantWeight::Q6K(w) => w.vram_bytes(),
        }
    }

    /// Whether rows can be looked up in packed form.
    pub fn supports_gather(&self) -> (supported: bool)
        ensures
            supported == gathers(self.format()),
    {
        match self {
            QuantWeight::Q80(_) => true,
            QuantWeight::Q4K(_) => true,
            QuantWeight::Q6K(_) => true,
            _ => false,
        }
    }

    /// The launch that looks up `n_tokens` rows, for a format that can.
    pub fn gather_rows_device(&self, n_tokens: usize) -> (grid: Option<Grid>)
        requires
            n_tokens * self.cols() <= usize::MAX,
        ensures
            grid == (if gathers(self.format()) {
                Some(flat_grid(n_tokens * self.cols()))
            } else {
                None
            }),
    {
        match self {
            QuantWeight::Q80(w) => Some(w.gather_rows_device(n_tokens)),
            QuantWeight::Q4K(w) => Some(w.gather_rows_device(n_tokens)),
            QuantWeight::Q6K(w) => Some(w.gather_rows_device(n_tokens)),
            _ => None,
        }
    }

    /// The launch of a product of `m` rows with this weight.
    pub fn matmul_device(&self, m: usize, gemv: bool, tiles: bool) -> (launch: MatmulLaunch)
        requires
            self.valid(),
            m * self.rows() <= usize::MAX,
        ensures
            launch == route(self.format(), self.rows(), m as int, gemv, tiles),
            launch is Gemv <==> m == 1 && gemv && (self is Q80 || self is Q4K || self is Q6K),
            launch is Tiled <==> m > 1 && tiles && (self is Q80 || self is Q4K),
            launch matches MatmulLaunch::Gemv(groups) ==> (self.rows() <= u32::MAX ==> groups * 16
                >= self.rows() && groups * 16 < self.rows() + 16),
            launch matches MatmulLaunch::Flat(grid) ==> (m * self.rows() <= u32::MAX ==> grid.x
                * grid.y * grid.z * 256 >= m * self.rows()),
            launch matches MatmulLaunch::Tiled(grid) ==> (self.rows() <= u32::MAX && m <= u32::MAX
                ==> grid.x * 256 >= self.rows() && grid.y >= m && grid.z >= 1),
    {
        proof {
            law_every_launch_covers_its_outputs(
                self.format(),
                self.rows(),
                m as int,
                gemv,
                tiles,
            );
        }
        if m == 1 && gemv && self.supports_gather() {
            let n_out: usize = self.n_out();
            return MatmulLaunch::Gemv(
                gemv_workgroups(
                    #[verifier::truncate]
                    (n_out as u32),
                ),
            );
        }
        match self {
            QuantWeight::Q40(w) => w.matmul_device(m),
            QuantWeight::Q50(w) => w.matmul_device(m),
            QuantWeight::Q80(w) => w.matmul_device(m, tiles),
            QuantWeight::Q4K(w) => w.matmul_device(m, tiles),
            QuantWeight::Q5K(w) => w.matmul_device(m),
            QuantWeight::Q6K(w) => w.matmul_device(m),
        }
    }
}

/// Whatever launch is chosen computes every output of `m` rows of `n_out` columns:
/// the decode kernel computes 16 columns of its row in each workgroup, the others
/// have 256 threads to a cube. The decode kernel is chosen for single rows alone,
/// the tiled one for several.
pub proof fn law_every_launch_covers_its_outputs(
    format: QuantFormat,
    n_out: int,
    m: int,
    gemv: bool,
    tiles: bool,
)
    requires
        n_out >= 0,
        m >= 0,
    ensures
        match route(format, n_out, m, gemv, tiles) {
            MatmulLaunch::Gemv(groups) => n_out <= u32::MAX ==> groups * 16 >= n_out && groups * 16
                < n_out + 16,
            MatmulLaunch::Flat(grid) => m * n_out <= u32::MAX ==> grid.x * grid.y * grid.z * 256
                >= m * n_out,
            MatmulLaunch::Tiled(grid) => n_out <= u32::MAX && m <= u32::MAX ==> grid.x * 256
                >= n_out && grid.y >= m && grid.z >= 1,
        },
        route(format, n_out, m, gemv, tiles) is Gemv <==> m == 1 && gemv && (format is Q8_0
            || format is Q4K || format is Q6K),
        route(format, n_out, m, gemv, tiles) is Tiled <==> m > 1 && tiles && (format is Q8_0
            || format is Q4K),
{
    assert(m * n_out >= 0) by (nonlinear_arith)
        requires
            m >= 0,
            n_out >= 0,
    ;
    if m * n_out <= u32::MAX {
        crate::weights::law_flat_launch_covers(m * n_out);
    }
    if n_out <= u32::MAX {
        crate::arith::lemma_ceil_div(n_out, 16);
        crate::arith::lemma_ceil_div(n_out, 256);
        assert(n_out as u32 as int == n_out);
        if m <= u32::MAX {
            assert(m as u32 as int == m);
        }
    }
}

/// A row lookup has a thread for every value of every row looked up.
pub proof fn law_lookup_covers_its_rows(format: QuantFormat, cols: int, tokens: int)
    requires
        cols >= 0,
        tokens >= 0,
        tokens * cols <= u32::MAX,
    ensures
        ({
            let grid = flat_grid(tokens * cols);
            grid.x * grid.y * grid.z * 256 >= tokens * cols
        }),
        gathers(format) <==> format is Q8_0 || format is Q4K || format is Q6K,
{
    assert(tokens * cols >= 0) by (nonlinear_arith)
        requires
            tokens >= 0,
            cols >= 0,
    ;
    crate::weights::law_flat_launch_covers(tokens * cols);
}

/// The bytes of a weight on the device are those of its planes, four to a word.
pub proof fn law_bytes_are_those_of_the_planes(w: QuantWeight)
    requires
        w.valid(),
    ensures
        block_count(w.rows(), w.cols(), block_values(w.format())) * plane_bytes(w.format()) == 4
            * match w {
            QuantWeight::Q40(w) => w.qs_plane().len() + w.d_plane().len(),
            QuantWeight::Q50(w) => w.qs_plane().len() + w.qh_plane().len() + w.d_plane().len(),
            QuantWeight::Q80(w) => w.qs_plane().len() + w.d_plane().len(),
            QuantWeight::Q4K(w) => w.qs_plane().len() + w.dd_plane().len() + w.scales_plane().len(),
            QuantWeight::Q5K(w) => w.qs_plane().len() + w.qh_plane().len() + w.dd_plane().len()
                + w.scales_plane().len(),
            QuantWeight::Q6K(w) => w.ql_plane().len() + w.qh_plane().len() + w.sc_plane().len()
                + w.d_plane().len(),
        },
{
}

/// A weight is accepted exactly if its bytes are those of whole blocks along its
/// rows: each row of `k` values takes `k / 32` blocks of 18, 22 or 34 bytes, or
/// `k / 256` of 144, 176 or 210.
pub proof fn law_accepted_bytes(format: QuantFormat, len: int, n_out: int, k: int)
    requires
        n_out >= 0,
        k >= 0,
    ensures
        weight_fits(len, n_out, k, block_values(format), block_bytes(format)) <==> k > 0
            && match format {
            QuantFormat::Q4_0 => k % 32 == 0 && len == n_out * (k / 32) * 18,
            QuantFormat::Q5_0 => k % 32 == 0 && len == n_out * (k / 32) * 22,
            QuantFormat::Q8_0 => k % 32 == 0 && len == n_out * (k / 32) * 34,
            QuantFormat::Q4K => k % 256 == 0 && len == n_out * (k / 256) * 144,
            QuantFormat::Q5K => k % 256 == 0 && len == n_out * (k / 256) * 176,
            QuantFormat::Q6K => k % 256 == 0 && len == n_out * (k / 256) * 210,
        },
{
    let block = block_values(format);
    if k % block == 0 {
        crate::weights::lemma_blocks(n_out, k, block);
    }
}

/// A weight reads as the stream that it was built from does, value by value.
pub proof fn law_weights_read_as_their_stream(w: QuantWeight, data: Seq<u8>, i: int)
    requires
        w.holds(data),
        0 <= i,
    ensures
        match w {
            QuantWeight::Q40(w) => i < data.len() / 18 * 32 ==> q4_0_packed(
                w.qs_plane(),
                w.d_plane(),
                i,
            ) == q4_0_raw(data, i),
            QuantWeight::Q50(w) => i < data.len() / 22 * 32 ==> q5_0_packed(
                w.qs_plane(),
                w.qh_plane(),
                w.d_plane(),
                i,
            ) == q5_0_raw(data, i),
            QuantWeight::Q80(w) => i < data.len() / 34 * 32 ==> q8_0_packed(
                w.qs_plane(),
                w.d_plane(),
                i,
            ) == q8_0_raw(data, i),
            QuantWeight::Q4K(w) => i < data.len() / 144 * 256 ==> q4_k_packed(
                w.qs_plane(),
                w.dd_plane(),
                w.scales_plane(),
                i,
            ) == q4_k_raw(data, i),
            QuantWeight::Q5K(w) => i < data.len() / 176 * 256 ==> q5_k_packed(
                w.qs_plane(),
                w.qh_plane(),
                w.dd_plane(),
                w.scales_plane(),
                i,
            ) == q5_k_raw(data, i),
            QuantWeight::Q6K(w) => i < data.len() / 210 * 256 ==> q6_k_packed(
                w.ql_plane(),
                w.qh_plane(),
                w.sc_plane(),
                w.d_plane(),
                i,
            ) == q6_k_raw(data, i),
        },
{
    match w {
        QuantWeight::Q40(_) => if i < data.len() / 18 * 32 {
            law_q4_0_reads_back(data, i);
        },
        QuantWeight::Q50(_) => if i < data.len() / 22 * 32 {
            law_q5_0_reads_back(data, i);
        },
        QuantWeight::Q80(_) => if i < data.len() / 34 * 32 {
            law_q8_0_reads_back(data, i);
        },
        QuantWeight::Q4K(_) => if i < data.len() / 144 * 256 {
            law_q4_k_reads_back(data, i);
        },
        QuantWeight::Q5K(_) => if i < data.len() / 176 * 256 {
            law_q5_k_reads_back(data, i);
        },
        QuantWeight::Q6K(_) => if i < data.len() / 210 * 256 {
            law_q6_k_reads_back(data, i);
        },
    }
}

/// A stream that is refused is refused by the name of its format, with the shape
/// that was asked for and the bytes that there were; an empty one by the bytes of
/// a block.
pub proof fn law_refused_streams_are_named(
    format: QuantFormat,
    len: int,
    n_out: usize,
    k: usize,
    error: ModelError,
)
    requires
        0 <= len <= usize::MAX,
        weight_refused(format, len, n_out, k, error),
    ensures
        error matches ModelError::BadShape { tensor, expected, got } && {
            let fits = weight_fits(
                len,
                n_out as int,
                k as int,
                block_values(format),
                block_bytes(format),
            );
            &&& got@.len() == 1
            &&& !fits ==> got@[0] == len && expected@.len() == 2 && expected@[0] == n_out
            &&& !fits && !(format is Q4_0) ==> expected@[1] == k
            &&& !fits ==> tensor@ == match format {
                QuantFormat::Q4_0 => "q4_0 weight"@,
                QuantFormat::Q5_0 => "q5_0 weight"@,
                QuantFormat::Q8_0 => "q8_0 weight"@,
                QuantFormat::Q4K => "q4_k weight"@,
                QuantFormat::Q5K => "q5_k weight"@,
                QuantFormat::Q6K => "q6_k weight"@,
            }
            &&& fits ==> got@[0] == 0 && expected@ == seq![block_bytes(format) as usize]
            &&& fits ==> tensor@ == match format {
                QuantFormat::Q4_0 => "q4_0 block stream"@,
                QuantFormat::Q5_0 => "q5_0 block stream"@,
                QuantFormat::Q8_0 => "q8_0 block stream"@,
                QuantFormat::Q4K => "q4_k superblock stream"@,
                QuantFormat::Q5K => "q5_k superblock stream"@,
                QuantFormat::Q6K => "q6_k superblock stream"@,
            }
        },
{
}

} // verus!
