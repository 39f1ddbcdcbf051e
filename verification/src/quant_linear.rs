//! A linear layer whose weight stays packed, two values to a byte.
//!
//! Each row of the weight is cut into groups that share a scale. A group of `n`
//! values takes `n / 2` bytes: the low halves hold the first half of the group,
//! the high halves the second. A half holds its value plus 8.

use vstd::prelude::*;

use crate::error::{bad_shape, is_bad_shape, one, two, Result};

verus! {

/// Values of a group where nothing else is said.
pub const DEFAULT_GROUP_SIZE: usize = 32;

/// The shape of a packed layer.
#[derive(Debug, Clone, Copy, PartialEq, Eq, Structural)]
pub struct QuantizedLinear {
    group_size: usize,
    in_features: usize,
    out_features: usize,
    has_bias: bool,
}

/// A group size that can be halved.
pub open spec fn group_fits(group_size: usize) -> bool {
    group_size > 0 && group_size as int % 2 == 0
}

/// Groups of a row of `packed_cols` bytes.
pub open spec fn groups_of(packed_cols: usize, group_size: usize) -> int {
    packed_cols * 2 / (group_size as int)
}

impl QuantizedLinear {
    /// Values of a group.
    pub closed spec fn group(&self) -> int {
        self.group_size as int
    }

    /// Columns of the weight.
    pub closed spec fn cols(&self) -> int {
        self.in_features as int
    }

    /// Rows of the weight.
    pub closed spec fn rows(&self) -> int {
        self.out_features as int
    }

    /// The layer adds a bias.
    pub closed spec fn biased(&self) -> bool {
        self.has_bias
    }

    /// Whole groups make up each row.
    pub open spec fn valid(&self) -> bool {
        &&& self.group() > 0
        &&& self.group() % 2 == 0
        &&& self.cols() >= 0
        &&& self.rows() >= 0
        &&& self.cols() % self.group() == 0
    }

    /// Takes the shapes of the packed weight, of its scales and of a bias.
    pub fn new(
        packed: (usize, usize),
        scales: (usize, usize),
        group_size: usize,
        bias: Option<usize>,
    ) -> (r: Result<Self>)
        requires
            packed.1 * 2 <= usize::MAX,
        ensures
            r matches Ok(layer) ==> {
                &&& layer.valid()
                &&& layer.rows() == packed.0
                &&& layer.cols() == packed.1 * 2
                &&& layer.group() == group_size
                &&& layer.biased() == bias is Some
            },
            r is Ok <==> group_fits(group_size) && packed.1 as int % (group_size as int / 2) == 0
                && scales.0 == packed.0 && scales.1 == groups_of(packed.1, group_size) && (
            bias matches Some(b) ==> b == packed.0),
            r is Ok <==> group_size > 0 && group_size as int % 2 == 0 && scales.0 == packed.0
                && scales.1 * group_size == packed.1 * 2 && (bias matches Some(b) ==> b
                == packed.0),
            r matches Err(e) ==> if !group_fits(group_size) {
                is_bad_shape(
                    e,
                    "quantized_weight"@,
                    seq![32usize],
                    seq![group_size],
                )
            } else if packed.1 as int % (group_size as int / 2) != 0 {
                is_bad_shape(
                    e,
                    "quantized_weight"@,
                    seq![(group_size as int / 2) as usize],
                    seq![packed.1],
                )
            } else if scales.0 != packed.0 || scales.1 != groups_of(packed.1, group_size) {
                is_bad_shape(
                    e,
                    "quantized_scales"@,
                    seq![packed.0, groups_of(packed.1, group_size) as usize],
                    seq![scales.0, scales.1],
                )
            } else {
                is_bad_shape(e, "quantized_bias"@, seq![packed.0], seq![bias->0])
            },
    {
        proof {
            if group_fits(group_size) {
                lemma_groups_fill_a_row(packed.1 as int, group_size as int, scales.1 as int);
            }
        }
        if group_size == 0 || group_size % 2 != 0 {
            return Err(bad_shape("quantized_weight", one(DEFAULT_GROUP_SIZE), one(group_size)));
        }
        let half: usize = group_size / 2;
        if packed.1 % half != 0 {
            return Err(bad_shape("quantized_weight", one(half), one(packed.1)));
        }
        let in_features: usize = packed.1 * 2;
        proof {
            let (h, c) = (half as int, packed.1 as int);
            let q = c / h;
            vstd::arithmetic::div_mod::lemma_fundamental_div_mod(c, h);
            assert(group_size == 2 * h);
            assert(in_features == group_size * q) by (nonlinear_arith)
                requires
                    c == h * q + 0,
                    in_features == c * 2,
                    group_size == 2 * h,
            ;
            vstd::arithmetic::div_mod::lemma_fundamental_div_mod_converse(
                in_features as int,
                group_size as int,
                q,
                0,
            );
        }
        if scales.0 != packed.0 || scales.1 != in_features / group_size {
            return Err(
                bad_shape(
                    "quantized_scales",
                    two(packed.0, in_features / group_size),
                    two(scales.0, scales.1),
                ),
            );
        }
        if let Some(b) = bias {
            if b != packed.0 {
                return Err(bad_shape("quantized_bias", one(packed.0), one(b)));
            }
        }
        Ok(
            QuantizedLinear {
                group_size,
                in_features,
                out_features: packed.0,
                has_bias: bias.is_some(),
            },
        )
    }

    /// Columns of the weight.
    pub fn in_features(&self) -> (n: usize)
        ensures
            n == self.cols(),
    {
        self.in_features
    }

    /// Rows of the weight.
    pub fn out_features(&self) -> (n: usize)
        ensures
            n == self.rows(),
    {
        self.out_features
    }

    /// The byte that holds the value of a row and a column.
    pub open spec fn byte_of(&self, row: int, col: int) -> int {
        row * (self.cols() / 2) + col / self.group() * (self.group() / 2) + col % self.group() % (
        self.group() / 2)
    }

    /// The quantized value of a row and a column.
    pub open spec fn quant_of(&self, packed: Seq<u8>, row: int, col: int) -> int {
        let byte = packed[self.byte_of(row, col)] as int;
        (if col % self.group() < self.group() / 2 {
            byte % 16
        } else {
            byte / 16
        }) - 8
    }

    /// The byte of a value lies within the packed weight.
    proof fn lemma_byte_of(&self, row: int, col: int)
        requires
            self.valid(),
            0 <= row < self.rows(),
            0 <= col < self.cols(),
        ensures
            0 <= self.byte_of(row, col) < self.rows() * (self.cols() / 2),
            0 <= col % self.group() % (self.group() / 2) < self.group() / 2,
            0 <= col / self.group() * (self.group() / 2) <= self.cols() / 2,
            0 <= row * (self.cols() / 2) <= self.rows() * (self.cols() / 2),
            col / self.group() * (self.group() / 2) + col % self.group() % (self.group() / 2)
                < self.cols() / 2,
    {
        let n = self.group();
        let h = n / 2;
        let half_cols = self.cols() / 2;
        let groups = self.cols() / n;
        vstd::arithmetic::div_mod::lemma_fundamental_div_mod(self.cols(), n);
        vstd::arithmetic::div_mod::lemma_fundamental_div_mod(col, n);
        vstd::arithmetic::div_mod::lemma_mod_bound(col, n);
        vstd::arithmetic::div_mod::lemma_mod_bound(col % n, h);
        let at = col / n;
        let rest = col % n % h;
        assert(at < groups && at >= 0) by (nonlinear_arith)
            requires
                col == n * at + col % n,
                0 <= col % n < n,
                0 <= col < n * groups,
        ;
        assert(half_cols == groups * h) by (nonlinear_arith)
            requires
                self.cols() == n * groups,
                n == 2 * h,
                half_cols == self.cols() / 2,
        ;
        assert(0 <= at * h && at * h + rest < groups * h && at * h <= groups * h)
            by (nonlinear_arith)
            requires
                0 <= at < groups,
                0 <= rest < h,
        ;
        assert(0 <= row * half_cols && row * half_cols <= self.rows() * half_cols && row * half_cols
            + (at * h + rest) < self.rows() * half_cols) by (nonlinear_arith)
            requires
                0 <= row < self.rows(),
                0 <= at * h + rest < half_cols,
        ;
    }

    /// The quantized value of a row and a column; the number itself is this times
    /// the scale of its group.
    pub fn quant(&self, packed: &Vec<u8>, row: usize, col: usize) -> (value: i32)
        requires
            self.valid(),
            row < self.rows(),
            col < self.cols(),
            packed@.len() == self.rows() * (self.cols() / 2),
        ensures
            value == self.quant_of(packed@, row as int, col as int),
            -8 <= value < 8,
    {
        proof {
            self.lemma_byte_of(row as int, col as int);
        }
        let bytes: usize = packed.len();
        assert(bytes == self.rows() * (self.cols() / 2));
        let half: usize = self.group_size / 2;
        let within: usize = col % self.group_size;
        let at: usize = row * (self.in_features / 2) + (col / self.group_size * half + within
            % half);
        let byte: u8 = packed[at];
        if within < half {
            (byte % 16) as i32 - 8
        } else {
            (byte / 16) as i32 - 8
        }
    }

    /// The scale that a column of a row is multiplied by.
    pub fn scale_index(&self, row: usize, col: usize) -> (at: usize)
        requires
            self.valid(),
            row < self.rows(),
            col < self.cols(),
            self.rows() * self.cols() <= usize::MAX,
        ensures
            at == row * (self.cols() / self.group()) + col as int / self.group(),
            at < self.rows() * (self.cols() / self.group()),
    {
        proof {
            let n = self.group();
            let groups = self.cols() / n;
            vstd::arithmetic::div_mod::lemma_fundamental_div_mod(self.cols(), n);
            vstd::arithmetic::div_mod::lemma_fundamental_div_mod(col as int, n);
            vstd::arithmetic::div_mod::lemma_mod_bound(col as int, n);
            let at = col as int / n;
            assert(0 <= at < groups) by (nonlinear_arith)
                requires
                    col == n * at + col as int % n,
                    0 <= col as int % n < n,
                    col < n * groups,
            ;
            assert(0 <= row * groups && row * groups + at < self.rows() * groups && self.rows()
                * groups <= self.rows() * self.cols()) by (nonlinear_arith)
                requires
                    0 <= row < self.rows(),
                    0 <= at < groups,
                    self.cols() == n * groups,
                    n >= 1,
            ;
        }
        row * (self.in_features / self.group_size) + col / self.group_size
    }

    /// The quantized values of the whole weight, row by row.
    pub fn weight(&self, packed: &Vec<u8>) -> (values: Vec<i32>)
        requires
            self.valid(),
            packed@.len() == self.rows() * (self.cols() / 2),
            self.rows() * self.cols() <= usize::MAX,
        ensures
            values@ == Seq::new(
                (self.rows() * self.cols()) as nat,
                |i: int| self.quant_of(packed@, i / self.cols(), i % self.cols()) as i32,
            ),
    {
        let len: usize = self.out_features * self.in_features;
        let mut values: Vec<i32> = Vec::new();
        let mut i: usize = 0;
        while i < len
            invariant
                i <= len,
                self.valid(),
                packed@.len() == self.rows() * (self.cols() / 2),
                len == self.rows() * self.cols(),
                values@ == Seq::new(
                    i as nat,
                    |i: int| self.quant_of(packed@, i / self.cols(), i % self.cols()) as i32,
                ),
            decreases len - i,
        {
            proof {
                let c = self.cols();
                assert(c > 0) by (nonlinear_arith)
                    requires
                        i < self.rows() * c,
                        c >= 0,
                        i >= 0,
                ;
                assert(c * self.rows() == self.rows() * c) by (nonlinear_arith);
                vstd::arithmetic::div_mod::lemma_multiply_divide_lt(i as int, c, self.rows());
                vstd::arithmetic::div_mod::lemma_mod_bound(i as int, c);
            }
            values.push(self.quant(packed, i / self.in_features, i % self.in_features));
            i = i + 1;
            assert(values@ =~= Seq::new(
                i as nat,
                |i: int| self.quant_of(packed@, i / self.cols(), i % self.cols()) as i32,
            ));
        }
        values
    }
}

/// Groups fill a row exactly if a half of a group divides its bytes and there are
/// as many groups as that.
proof fn lemma_groups_fill_a_row(bytes: int, group: int, groups: int)
    requires
        bytes >= 0,
        group > 0,
        group % 2 == 0,
    ensures
        bytes % (group / 2) == 0 && groups == bytes * 2 / group <==> groups * group == bytes * 2,
{
    let half = group / 2;
    assert(group == 2 * half);
    if groups * group == bytes * 2 {
        assert(bytes == groups * half) by (nonlinear_arith)
            requires
                groups * group == bytes * 2,
                group == 2 * half,
        ;
        vstd::arithmetic::div_mod::lemma_fundamental_div_mod_converse(bytes, half, groups, 0);
        vstd::arithmetic::div_mod::lemma_fundamental_div_mod_converse(
            bytes * 2,
            group,
            groups,
            0,
        );
    }
    if bytes % half == 0 && groups == bytes * 2 / group {
        vstd::arithmetic::div_mod::lemma_fundamental_div_mod(bytes, half);
        let q = bytes / half;
        assert(q * group == bytes * 2) by (nonlinear_arith)
            requires
                bytes == half * q + 0,
                group == 2 * half,
        ;
        vstd::arithmetic::div_mod::lemma_fundamental_div_mod_converse(bytes * 2, group, q, 0);
    }
}

/// A byte holds one value of each half of its group, the first in its low half,
/// both plus 8: value `j` of group `g` and the value half a group behind it.
pub proof fn law_byte_holds_two_values(
    layer: QuantizedLinear,
    packed: Seq<u8>,
    row: int,
    g: int,
    j: int,
)
    requires
        layer.valid(),
        0 <= row < layer.rows(),
        0 <= g < layer.cols() / layer.group(),
        0 <= j,
        2 * j < layer.group(),
    ensures
        ({
            let (n, half) = (layer.group(), layer.group() / 2);
            let first = layer.quant_of(packed, row, g * n + j);
            let second = layer.quant_of(packed, row, g * n + half + j);
            &&& -8 <= first < 8
            &&& -8 <= second < 8
            &&& packed[row * (layer.cols() / 2) + g * half + j] == (first + 8) + 16 * (second + 8)
        }),
{
    let (n, half) = (layer.group(), layer.group() / 2);
    assert(n == 2 * half);
    vstd::arithmetic::div_mod::lemma_fundamental_div_mod_converse(g * n + j, n, g, j);
    vstd::arithmetic::div_mod::lemma_fundamental_div_mod_converse(
        g * n + half + j,
        n,
        g,
        half + j,
    );
    vstd::arithmetic::div_mod::lemma_fundamental_div_mod_converse(j, half, 0, j);
    vstd::arithmetic::div_mod::lemma_fundamental_div_mod_converse(half + j, half, 1, j);
}

} // verus!
