//! When a hand-written kernel takes a call, and what it is handed.
//!
//! A kernel never has to run: each `try_` function answers `None` where the
//! general path must do the work instead. The numbers that a launch carries
//! travel in slots of 64 bits, in the order in which the kernel reads them;
//! single-precision numbers travel as their bit pattern.

use vstd::prelude::*;

use crate::arith::{ceil_div, div_ceil, lemma_ceil_div};
use crate::paged_state::KV_QUANT_GROUP;
use crate::text::same_text;

verus! {

/// Threads of one workgroup.
pub const WORKGROUP: usize = 256;

/// Most workgroups along one dimension of a launch.
pub const MAX_WORKGROUPS: usize = 65535;

/// A door is open unless its setting is `0`.
pub open spec fn door_open(setting: Option<&str>) -> bool {
    setting matches Some(v) ==> v@ != "0"@
}

/// The hand-written kernels are on, going by the setting for all of them.
pub fn wgsl_enabled(setting: Option<&str>) -> (enabled: bool)
    ensures
        enabled == door_open(setting),
        setting is None ==> enabled,
        setting matches Some(v) ==> (enabled <==> v@ != seq!['0']),
{
    proof {
        reveal_strlit("0");
        assert("0"@ =~= seq!['0']);
    }
    match setting {
        Some(v) => !same_text(v, "0"),
        None => true,
    }
}

/// One kernel is on: neither the setting for all kernels nor its own closes the
/// door.
pub fn kernel_enabled(all: Option<&str>, own: Option<&str>) -> (enabled: bool)
    ensures
        enabled == (door_open(all) && door_open(own)),
        enabled <==> !(all matches Some(v) && v@ == seq!['0']) && !(own matches Some(v) && v@
            == seq!['0']),
{
    wgsl_enabled(all) && wgsl_enabled(own)
}

/// The shape of a tensor of rank four.
#[derive(Debug, Clone, Copy, PartialEq, Eq, Structural)]
pub struct Dims4 {
    /// First dimension.
    pub a: usize,
    /// Second dimension.
    pub b: usize,
    /// Third dimension.
    pub c: usize,
    /// Fourth dimension.
    pub d: usize,
}

/// What one launch of decode attention covers.
#[derive(Debug, Clone, Copy, PartialEq, Eq, Structural)]
pub struct AttnGeom {
    /// Query heads.
    pub n_q: usize,
    /// Heads of keys and values.
    pub n_kv: usize,
    /// Width of a head.
    pub d: usize,
    /// Rows of a page.
    pub page_size: usize,
    /// Keys in all.
    pub total: usize,
    /// Keys of the window, 0 for no window.
    pub window: usize,
    /// 0 for pages, 1 for rows that stand behind one another.
    pub mode: usize,
}

impl AttnGeom {
    /// The slots of a launch, the scale as the bit pattern `scale`.
    pub fn scalar_slots(&self, scale: u32) -> (slots: Vec<u64>)
        ensures
            slots@ == seq![
                self.n_q as u64,
                self.n_kv as u64,
                self.d as u64,
                self.page_size as u64,
                self.total as u64,
                self.window as u64,
                self.mode as u64,
                scale as u64,
            ],
    {
        let mut slots: Vec<u64> = Vec::new();
        slots.push(self.n_q as u64);
        slots.push(self.n_kv as u64);
        slots.push(self.d as u64);
        slots.push(self.page_size as u64);
        slots.push(self.total as u64);
        slots.push(self.window as u64);
        slots.push(self.mode as u64);
        slots.push(scale as u64);
        slots
    }
}

/// Decode attention takes one query of each head, a width that one workgroup
/// holds in whole steps of `step`, and query heads that share key heads evenly.
pub open spec fn attends(q: Dims4, n_kv: usize, total: usize, step: usize) -> bool {
    q.c == 1 && 0 < q.d <= WORKGROUP && q.d as int % step as int == 0 && n_kv > 0 && q.b as int
        % n_kv as int == 0 && total > 0
}

/// Tests what every form of decode attention asks.
fn can_attend(q: Dims4, n_kv: usize, total: usize, step: usize) -> (yes: bool)
    requires
        step > 0,
    ensures
        yes == attends(q, n_kv, total, step),
{
    q.c == 1 && q.d <= WORKGROUP && q.d != 0 && q.d % step == 0 && n_kv != 0 && q.b % n_kv == 0
        && total != 0
}

/// Enough pages hold all keys.
proof fn lemma_enough_pages(pages: int, page_size: int, total: int)
    requires
        pages >= 0,
        page_size > 0,
        total >= 0,
    ensures
        pages >= ceil_div(total, page_size) <==> pages * page_size >= total,
{
    lemma_ceil_div(total, page_size);
    let least_pages = ceil_div(total, page_size);
    if pages >= least_pages {
        assert(pages * page_size >= least_pages * page_size) by (nonlinear_arith)
            requires
                pages >= least_pages,
                page_size > 0,
        ;
    } else {
        assert(pages * page_size <= (least_pages - 1) * page_size) by (nonlinear_arith)
            requires
                pages <= least_pages - 1,
                page_size > 0,
        ;
        assert((least_pages - 1) * page_size == least_pages * page_size - page_size)
            by (nonlinear_arith);
    }
}

/// Decode attention over the pages of an arena `[pages, n_kv, page_size, d]`,
/// for queries `[1, n_q, 1, d]` and a table of `table_len` pages.
pub fn try_decode_attention(
    enabled: bool,
    q: Dims4,
    arena: Dims4,
    table_len: usize,
    total: usize,
    window: usize,
) -> (geom: Option<AttnGeom>)
    requires
        enabled && attends(q, arena.b, total, 4) && arena.d == q.d ==> arena.c > 0,
    ensures
        geom == (if enabled && attends(q, arena.b, total, 4) && arena.d == q.d && table_len
            >= ceil_div(total as int, arena.c as int) {
            Some(
                AttnGeom {
                    n_q: q.b,
                    n_kv: arena.b,
                    d: q.d,
                    page_size: arena.c,
                    total,
                    window,
                    mode: 0,
                },
            )
        } else {
            None
        }),
        geom is Some <==> enabled && q.c == 1 && 0 < q.d <= 256 && q.d as int % 4 == 0 && arena.b
            > 0 && q.b as int % arena.b as int == 0 && total > 0 && arena.d == q.d && table_len
            * arena.c >= total,
{
    proof {
        if arena.c > 0 {
            lemma_enough_pages(table_len as int, arena.c as int, total as int);
        }
    }
    if !enabled || !can_attend(q, arena.b, total, 4) || arena.d != q.d {
        return None;
    }
    if table_len < div_ceil(total, arena.c) {
        return None;
    }
    Some(
        AttnGeom {
            n_q: q.b,
            n_kv: arena.b,
            d: q.d,
            page_size: arena.c,
            total,
            window,
            mode: 0,
        },
    )
}

/// Decode attention over rows `[1, n_kv, total, d]` that stand behind one
/// another.
pub fn try_sliding_decode_attention(enabled: bool, q: Dims4, k: Dims4, window: usize) -> (geom:
    Option<AttnGeom>)
    ensures
        geom == (if enabled && attends(q, k.b, k.c, 4) && k.d == q.d {
            Some(
                AttnGeom {
                    n_q: q.b,
                    n_kv: k.b,
                    d: q.d,
                    page_size: 1,
                    total: k.c,
                    window,
                    mode: 1,
                },
            )
        } else {
            None
        }),
        geom is Some <==> enabled && q.c == 1 && 0 < q.d <= 256 && q.d as int % 4 == 0 && k.b > 0
            && q.b as int % k.b as int == 0 && k.c > 0 && k.d == q.d,
{
    if !enabled || !can_attend(q, k.b, k.c, 4) || k.d != q.d {
        return None;
    }
    Some(
        AttnGeom { n_q: q.b, n_kv: k.b, d: q.d, page_size: 1, total: k.c, window, mode: 1 },
    )
}

/// Decode attention over the pages of a quantized arena, whose packed words
/// have the shape `[pages, n_kv, page_size, d / 4]`.
pub fn try_decode_attention_q8(
    enabled: bool,
    q: Dims4,
    packed: Dims4,
    table_len: usize,
    total: usize,
) -> (geom: Option<AttnGeom>)
    requires
        enabled && attends(q, packed.b, total, KV_QUANT_GROUP) && packed.d == q.d as int / 4
            ==> packed.c > 0,
    ensures
        geom == (if enabled && attends(q, packed.b, total, KV_QUANT_GROUP) && packed.d == q.d as int
            / 4 && table_len >= ceil_div(total as int, packed.c as int) {
            Some(
                AttnGeom {
                    n_q: q.b,
                    n_kv: packed.b,
                    d: q.d,
                    page_size: packed.c,
                    total,
                    window: 0,
                    mode: 0,
                },
            )
        } else {
            None
        }),
        geom is Some <==> enabled && q.c == 1 && 0 < q.d <= 256 && q.d as int % 32 == 0 && packed.b
            > 0 && q.b as int % packed.b as int == 0 && total > 0 && 4 * packed.d == q.d
            && table_len * packed.c >= total,
{
    proof {
        if packed.c > 0 {
            lemma_enough_pages(table_len as int, packed.c as int, total as int);
        }
    }
    if !enabled || !can_attend(q, packed.b, total, KV_QUANT_GROUP) || packed.d != q.d / 4 {
        return None;
    }
    if table_len < div_ceil(total, packed.c) {
        return None;
    }
    Some(
        AttnGeom {
            n_q: q.b,
            n_kv: packed.b,
            d: q.d,
            page_size: packed.c,
            total,
            window: 0,
            mode: 0,
        },
    )
}

/// What one launch of attention in segments covers: a pass over each segment of
/// the keys, then a pass that joins the segments.
#[derive(Debug, Clone, Copy, PartialEq, Eq, Structural)]
pub struct SplitGeom {
    /// Query heads.
    pub n_q: usize,
    /// Heads of keys and values.
    pub n_kv: usize,
    /// Width of a head.
    pub d: usize,
    /// Rows of a page.
    pub page_size: usize,
    /// Keys in all.
    pub total: usize,
    /// Keys of a segment.
    pub seg_len: usize,
}

impl SplitGeom {
    /// Segments that hold all keys; the last one may be short.
    pub fn segs(&self) -> (segs: usize)
        requires
            self.seg_len > 0,
        ensures
            segs == ceil_div(self.total as int, self.seg_len as int),
            segs * self.seg_len >= self.total,
            self.total > 0 ==> (segs - 1) * self.seg_len < self.total,
    {
        proof {
            lemma_ceil_div(self.total as int, self.seg_len as int);
        }
        div_ceil(self.total, self.seg_len)
    }

    /// The slots of the first pass, the scale as the bit pattern `scale`.
    pub fn scalar_slots(&self, scale: u32) -> (slots: Vec<u64>)
        requires
            self.seg_len > 0,
        ensures
            slots@ == seq![
                self.n_q as u64,
                self.n_kv as u64,
                self.d as u64,
                self.page_size as u64,
                self.total as u64,
                self.seg_len as u64,
                ceil_div(self.total as int, self.seg_len as int) as u64,
                scale as u64,
            ],
    {
        let mut slots: Vec<u64> = Vec::new();
        slots.push(self.n_q as u64);
        slots.push(self.n_kv as u64);
        slots.push(self.d as u64);
        slots.push(self.page_size as u64);
        slots.push(self.total as u64);
        slots.push(self.seg_len as u64);
        slots.push(self.segs() as u64);
        slots.push(scale as u64);
        slots
    }

    /// The slots of the second pass.
    pub fn combine_slots(&self) -> (slots: Vec<u64>)
        requires
            self.seg_len > 0,
        ensures
            slots@ == seq![
                self.n_q as u64,
                self.d as u64,
                ceil_div(self.total as int, self.seg_len as int) as u64,
            ],
    {
        let mut slots: Vec<u64> = Vec::new();
        slots.push(self.n_q as u64);
        slots.push(self.d as u64);
        slots.push(self.segs() as u64);
        slots
    }
}

/// What one launch that rotates queries and keys covers.
#[derive(Debug, Clone, Copy, PartialEq, Eq, Structural)]
pub struct RopeGeom {
    /// Query heads.
    pub n_q: usize,
    /// Heads of keys.
    pub n_kv: usize,
    /// Positions.
    pub seq: usize,
    /// Width of a head.
    pub d: usize,
    /// First position.
    pub pos: usize,
}

impl RopeGeom {
    /// Numbers that the launch rotates.
    pub open spec fn elements(self) -> int {
        (self.n_q + self.n_kv) * self.seq * self.d
    }

    /// A launch rotates no negative count.
    proof fn lemma_elements(self)
        ensures
            self.elements() >= 0,
    {
        assert((self.n_q + self.n_kv) * self.seq * self.d >= 0) by (nonlinear_arith);
    }

    /// The slots of the launch.
    pub fn scalar_slots(&self) -> (slots: Vec<u64>)
        ensures
            slots@ == seq![
                self.n_q as u64,
                self.n_kv as u64,
                self.seq as u64,
                self.d as u64,
                self.pos as u64,
            ],
    {
        let mut slots: Vec<u64> = Vec::new();
        slots.push(self.n_q as u64);
        slots.push(self.n_kv as u64);
        slots.push(self.seq as u64);
        slots.push(self.d as u64);
        slots.push(self.pos as u64);
        slots
    }

    /// The numbers that the launch rotates, where their count can be held.
    fn count(&self) -> (count: Option<usize>)
        ensures
            count == (if self.elements() <= usize::MAX {
                Some(self.elements() as usize)
            } else {
                None
            }),
    {
        let heads: usize = match self.n_q.checked_add(self.n_kv) {
            Some(heads) => heads,
            None => {
                if self.seq == 0 || self.d == 0 {
                    assert((self.n_q + self.n_kv) * self.seq * self.d == 0) by (nonlinear_arith)
                        requires
                            self.seq == 0 || self.d == 0,
                    ;
                    return Some(0);
                }
                assert((self.n_q + self.n_kv) * self.seq * self.d >= self.n_q + self.n_kv)
                    by (nonlinear_arith)
                    requires
                        self.seq >= 1,
                        self.d >= 1,
                ;
                return None;
            },
        };
        match heads.checked_mul(self.seq) {
            Some(rows) => rows.checked_mul(self.d),
            None => {
                if self.d == 0 {
                    assert(heads * self.seq * self.d == 0) by (nonlinear_arith)
                        requires
                            self.d == 0,
                    ;
                    return Some(0);
                }
                assert(heads * self.seq * self.d >= heads * self.seq) by (nonlinear_arith)
                    requires
                        self.d >= 1,
                ;
                None
            },
        }
    }

    /// Workgroups of the launch, one thread to a number.
    pub fn workgroups(&self) -> (groups: usize)
        requires
            self.elements() <= usize::MAX,
        ensures
            groups == ceil_div(self.elements(), WORKGROUP as int),
            groups * 256 >= (self.n_q + self.n_kv) * self.seq * self.d,
            (groups - 1) * 256 < (self.n_q + self.n_kv) * self.seq * self.d,
    {
        proof {
            self.lemma_elements();
            lemma_ceil_div(self.elements(), WORKGROUP as int);
        }
        match self.count() {
            Some(count) => div_ceil(count, WORKGROUP),
            None => 0,
        }
    }
}

/// Queries `[1, n_q, seq, d]` and keys `[1, n_kv, seq, d]` can be rotated
/// together against tables `[max_position, table_d]`.
pub open spec fn rotates(
    q: Dims4,
    k: Dims4,
    max_position: usize,
    table_d: usize,
    pos: usize,
) -> bool {
    q.a == 1 && k.a == 1 && k.c == q.c && k.d == q.d && table_d == q.d && q.d > 0 && q.d as int % 2
        == 0 && q.c > 0 && pos + q.c <= max_position && ceil_div(
        (RopeGeom { n_q: q.b, n_kv: k.b, seq: q.c, d: q.d, pos }).elements(),
        WORKGROUP as int,
    ) <= MAX_WORKGROUPS
}

/// The rotation of queries and keys in one launch.
pub fn try_rope_qk(
    enabled: bool,
    q: Dims4,
    k: Dims4,
    max_position: usize,
    table_d: usize,
    pos: usize,
) -> (geom: Option<RopeGeom>)
    ensures
        geom == (if enabled && rotates(q, k, max_position, table_d, pos) {
            Some(RopeGeom { n_q: q.b, n_kv: k.b, seq: q.c, d: q.d, pos })
        } else {
            None
        }),
        geom is Some <==> enabled && q.a == 1 && k.a == 1 && k.c == q.c && k.d == q.d && table_d
            == q.d && q.d > 0 && q.d as int % 2 == 0 && q.c > 0 && pos + q.c <= max_position && (
        q.b + k.b) * q.c * q.d <= 65535 * 256,
{
    proof {
        let geom = RopeGeom { n_q: q.b, n_kv: k.b, seq: q.c, d: q.d, pos };
        geom.lemma_elements();
        lemma_ceil_div(geom.elements(), 256);
    }
    if !enabled || q.a != 1 || k.a != 1 || k.c != q.c || k.d != q.d || table_d != q.d || q.d == 0
        || q.d % 2 != 0 || q.c == 0 || pos > max_position || q.c > max_position - pos {
        return None;
    }
    let geom: RopeGeom = RopeGeom { n_q: q.b, n_kv: k.b, seq: q.c, d: q.d, pos };
    match geom.count() {
        Some(count) => {
            if div_ceil(count, WORKGROUP) > MAX_WORKGROUPS {
                None
            } else {
                Some(geom)
            }
        },
        None => {
            proof {
                lemma_ceil_div(geom.elements(), WORKGROUP as int);
            }
            None
        },
    }
}

/// The product of some dimensions.
pub open spec fn product(dims: Seq<usize>) -> int
    decreases dims.len(),
{
    if dims.len() == 0 {
        1
    } else {
        product(dims.drop_last()) * dims.last()
    }
}

/// A product is never negative, and one that continues another is 0 or no
/// smaller.
proof fn lemma_product(dims: Seq<usize>, n: int)
    requires
        0 <= n <= dims.len(),
    ensures
        product(dims.take(n)) >= 0,
        product(dims) == 0 || product(dims) >= product(dims.take(n)),
    decreases dims.len(),
{
    if n == dims.len() {
        assert(dims.take(n) =~= dims);
        if dims.len() > 0 {
            lemma_product(dims.drop_last(), dims.len() - 1);
            assert(dims.drop_last().take(dims.len() - 1) =~= dims.drop_last());
            assert(product(dims) >= 0) by (nonlinear_arith)
                requires
                    product(dims) == product(dims.drop_last()) * dims.last(),
                    product(dims.drop_last()) >= 0,
            ;
        }
    } else {
        let before = product(dims.drop_last());
        assert(dims.drop_last().take(n) =~= dims.take(n));
        lemma_product(dims.drop_last(), n);
        assert(product(dims) == 0 || product(dims) >= before) by (nonlinear_arith)
            requires
                product(dims) == before * dims.last(),
                before >= 0,
        ;
        lemma_product(dims.drop_last(), dims.len() - 1);
        assert(dims.drop_last().take(dims.len() - 1) =~= dims.drop_last());
    }
}

/// The normalization of rows, one workgroup to a row of the last dimension:
/// how many rows there are, and how long each is.
pub fn try_rms_norm(enabled: bool, dims: &Vec<usize>) -> (shape: Option<(usize, usize)>)
    requires
        dims@.len() > 0,
    ensures
        shape == (if enabled && 0 < product(dims@.drop_last()) <= MAX_WORKGROUPS && dims@.last()
            > 0 {
            Some((product(dims@.drop_last()) as usize, dims@.last()))
        } else {
            None
        }),
        shape is Some <==> enabled && 0 < product(dims@.drop_last()) <= 65535 && dims@.last() > 0,
        shape matches Some((rows, n)) ==> rows == product(dims@.drop_last()) && n == dims@.last(),
{
    if !enabled {
        return None;
    }
    let ghost lead = dims@.drop_last();
    let last: usize = dims.len() - 1;
    let n: usize = dims[last];
    let mut rows: usize = 1;
    let mut i: usize = 0;
    while i < last
        invariant
            i <= last,
            last == dims@.len() - 1,
            lead == dims@.drop_last(),
            rows == product(lead.take(i as int)),
            dims@.len() > 0,
        decreases last - i,
    {
        proof {
            assert(lead.take(i + 1).drop_last() =~= lead.take(i as int));
            assert(lead.take(i + 1).last() == dims@[i as int]);
            lemma_product(lead, i + 1);
        }
        match rows.checked_mul(dims[i]) {
            Some(more) => {
                rows = more;
            },
            None => {
                return None;
            },
        }
        i = i + 1;
    }
    assert(lead.take(i as int) =~= lead);
    if rows == 0 || n == 0 || rows > MAX_WORKGROUPS {
        None
    } else {
        Some((rows, n))
    }
}

/// The slots of a normalization: the numbers `eps` and `flavor`, which is added
/// to each weight, as bit patterns.
pub fn rms_norm_slots(rows: usize, n: usize, eps: u32, flavor: u32) -> (slots: Vec<u64>)
    ensures
        slots@ == seq![rows as u64, n as u64, eps as u64, flavor as u64],
{
    let mut slots: Vec<u64> = Vec::new();
    slots.push(rows as u64);
    slots.push(n as u64);
    slots.push(eps as u64);
    slots.push(flavor as u64);
    slots
}

/// The slots of a decode product with an `[n_out, k]` matrix.
pub fn gemv_slots(n_out: usize, k: usize) -> (slots: Vec<u64>)
    ensures
        slots@ == seq![n_out as u64, k as u64],
{
    let mut slots: Vec<u64> = Vec::new();
    slots.push(n_out as u64);
    slots.push(k as u64);
    slots
}

/// A product of dimensions is that of some of them times that of the others, and
/// that of one dimension is the dimension.
pub proof fn law_product_of_parts(a: Seq<usize>, b: Seq<usize>, n: usize)
    ensures
        product(a + b) == product(a) * product(b),
        product(seq![n]) == n,
    decreases b.len(),
{
    assert(seq![n].drop_last() =~= Seq::empty());
    assert(product(Seq::<usize>::empty()) == 1);
    if b.len() == 0 {
        assert(a + b =~= a);
    } else {
        law_product_of_parts(a, b.drop_last(), n);
        assert((a + b).drop_last() =~= a + b.drop_last());
        assert(product(a) * product(b.drop_last()) * b.last() == product(a) * (product(
            b.drop_last(),
        ) * b.last())) by (nonlinear_arith);
    }
}

/// Decode attention takes one query of each head, of a width in whole steps, and
/// as many query heads for one key head as for any other.
pub proof fn law_heads_share_evenly(q: Dims4, n_kv: usize, total: usize, step: usize)
    requires
        step > 0,
        attends(q, n_kv, total, step),
    ensures
        n_kv > 0,
        q.b == n_kv * (q.b as int / n_kv as int),
        q.c == 1,
        0 < q.d <= 256,
        q.d == step * (q.d as int / step as int),
        total > 0,
{
    vstd::arithmetic::div_mod::lemma_fundamental_div_mod(q.b as int, n_kv as int);
    vstd::arithmetic::div_mod::lemma_fundamental_div_mod(q.d as int, step as int);
}

} // verus!
