//! How an image is cut into patches.

use vstd::prelude::*;

verus! {

/// The pixel of an image `[channels, height, width]` that comes `i`-th where the
/// image is cut into patches of `p` by `p`: patch by patch in reading order, and
/// in each patch channel by channel, row by row.
pub open spec fn patch_pixel(channels: int, height: int, width: int, p: int, i: int) -> int {
    let area = p * p;
    let patch = i / (channels * area);
    let within = i % (channels * area);
    let channel = within / area;
    let row = patch / (width / p) * p + within % area / p;
    let col = patch % (width / p) * p + within % area % p;
    (channel * height + row) * width + col
}

/// The image can be cut into whole patches.
pub open spec fn cuts_whole(height: int, width: int, p: int) -> bool {
    p > 0 && height % p == 0 && width % p == 0
}

/// A patch and a place in it name a pixel of the image.
proof fn lemma_patch_pixel(channels: int, height: int, width: int, p: int, i: int)
    requires
        channels > 0,
        height > 0,
        width > 0,
        cuts_whole(height, width, p),
        0 <= i < channels * height * width,
    ensures
        ({
            let area = p * p;
            let patch = i / (channels * area);
            let within = i % (channels * area);
            &&& area > 0
            &&& channels * area > 0
            &&& width / p > 0
            &&& 0 <= within < channels * area
            &&& 0 <= patch < (height / p) * (width / p)
            &&& 0 <= within / area < channels
            &&& 0 <= within % area < area
            &&& 0 <= within % area / p < p
            &&& 0 <= within % area % p < p
            &&& 0 <= patch / (width / p) < height / p
            &&& 0 <= patch % (width / p) < width / p
            &&& 0 <= patch / (width / p) * p + within % area / p < height
            &&& 0 <= patch % (width / p) * p + within % area % p < width
        }),
        0 <= patch_pixel(channels, height, width, p, i) < channels * height * width,
{
    let area = p * p;
    let gh = height / p;
    let gw = width / p;
    let size = channels * area;
    let patch = i / size;
    let within = i % size;
    vstd::arithmetic::div_mod::lemma_fundamental_div_mod(height, p);
    vstd::arithmetic::div_mod::lemma_fundamental_div_mod(width, p);
    assert(area > 0) by (nonlinear_arith)
        requires
            p > 0,
            area == p * p,
    ;
    assert(size > 0) by (nonlinear_arith)
        requires
            channels > 0,
            area > 0,
            size == channels * area,
    ;
    assert(gh > 0 && gw > 0) by (nonlinear_arith)
        requires
            height == p * gh,
            width == p * gw,
            height > 0,
            width > 0,
            p > 0,
    ;
    assert(channels * height * width == size * (gh * gw)) by (nonlinear_arith)
        requires
            height == p * gh,
            width == p * gw,
            size == channels * (p * p),
    ;
    vstd::arithmetic::div_mod::lemma_multiply_divide_lt(i, size, gh * gw);
    vstd::arithmetic::div_mod::lemma_div_pos_is_pos(i, size);
    vstd::arithmetic::div_mod::lemma_mod_bound(i, size);
    assert(area * channels == channels * area) by (nonlinear_arith);
    vstd::arithmetic::div_mod::lemma_multiply_divide_lt(within, area, channels);
    vstd::arithmetic::div_mod::lemma_div_pos_is_pos(within, area);
    vstd::arithmetic::div_mod::lemma_mod_bound(within, area);
    vstd::arithmetic::div_mod::lemma_multiply_divide_lt(within % area, p, p);
    vstd::arithmetic::div_mod::lemma_div_pos_is_pos(within % area, p);
    vstd::arithmetic::div_mod::lemma_mod_bound(within % area, p);
    assert(gw * gh == gh * gw) by (nonlinear_arith);
    vstd::arithmetic::div_mod::lemma_multiply_divide_lt(patch, gw, gh);
    vstd::arithmetic::div_mod::lemma_div_pos_is_pos(patch, gw);
    vstd::arithmetic::div_mod::lemma_mod_bound(patch, gw);
    let y = within % area / p;
    let x = within % area % p;
    let (py, px) = (patch / gw, patch % gw);
    assert(0 <= py * p + y < height) by (nonlinear_arith)
        requires
            0 <= py < gh,
            0 <= y < p,
            height == p * gh,
    ;
    assert(0 <= px * p + x < width) by (nonlinear_arith)
        requires
            0 <= px < gw,
            0 <= x < p,
            width == p * gw,
    ;
    let channel = within / area;
    let (row, col) = (py * p + y, px * p + x);
    assert(0 <= (channel * height + row) * width + col < channels * height * width)
        by (nonlinear_arith)
        requires
            0 <= channel < channels,
            0 <= row < height,
            0 <= col < width,
    ;
}

/// Cuts an image into patches: the pixels in the order in which the patches take
/// them, `channels * p * p` to a patch.
pub fn unfold(channels: usize, height: usize, width: usize, p: usize) -> (order: Vec<usize>)
    requires
        cuts_whole(height as int, width as int, p as int),
        channels * height * width <= usize::MAX,
    ensures
        order@ == Seq::new(
            (channels * height * width) as nat,
            |i: int|
                patch_pixel(channels as int, height as int, width as int, p as int, i) as usize,
        ),
{
    let mut order: Vec<usize> = Vec::new();
    if channels == 0 || height == 0 || width == 0 {
        assert(channels * height * width == 0) by (nonlinear_arith)
            requires
                channels == 0 || height == 0 || width == 0,
        ;
        assert(order@ =~= Seq::new(
            (channels * height * width) as nat,
            |i: int|
                patch_pixel(channels as int, height as int, width as int, p as int, i) as usize,
        ));
        return order;
    }
    proof {
        assert(channels * height <= channels * height * width) by (nonlinear_arith)
            requires
                width >= 1,
        ;
    }
    let len: usize = channels * height * width;
    proof {
        assert(len > 0) by (nonlinear_arith)
            requires
                len == channels * height * width,
                channels > 0,
                height > 0,
                width > 0,
        ;
        vstd::arithmetic::div_mod::lemma_fundamental_div_mod(height as int, p as int);
        vstd::arithmetic::div_mod::lemma_fundamental_div_mod(width as int, p as int);
        let (gh, gw) = (height as int / p as int, width as int / p as int);
        assert(p * p <= len && channels * (p * p) <= len) by (nonlinear_arith)
            requires
                len == channels * height * width,
                height == p * gh,
                width == p * gw,
                height > 0,
                width > 0,
                channels > 0,
                p > 0,
        ;
    }
    let area: usize = p * p;
    let size: usize = channels * area;
    let across: usize = width / p;
    let mut i: usize = 0;
    while i < len
        invariant
            i <= len,
            len == channels * height * width,
            channels > 0,
            height > 0,
            width > 0,
            area == p * p,
            size == channels * area,
            across == width as int / p as int,
            cuts_whole(height as int, width as int, p as int),
            order@ == Seq::new(
                i as nat,
                |i: int|
                    patch_pixel(channels as int, height as int, width as int, p as int, i) as usize,
            ),
        decreases len - i,
    {
        proof {
            lemma_patch_pixel(
                channels as int,
                height as int,
                width as int,
                p as int,
                i as int,
            );
        }
        let patch: usize = i / size;
        let within: usize = i % size;
        let channel: usize = within / area;
        proof {
            let row = patch as int / across as int * p + within as int % area as int / p as int;
            let py = patch as int / across as int;
            let px = patch as int % across as int;
            assert(0 <= py * p <= row) by (nonlinear_arith)
                requires
                    py >= 0,
                    p > 0,
                    row >= py * p,
            ;
            assert(0 <= px * p) by (nonlinear_arith)
                requires
                    px >= 0,
                    p > 0,
            ;
            assert(0 <= channel * height && channel * height + row < channels * height && (channel
                * height + row) * width <= channels * height * width) by (nonlinear_arith)
                requires
                    0 <= channel < channels,
                    0 <= row < height,
                    width >= 1,
            ;
            assert(channels * height <= channels * height * width) by (nonlinear_arith)
                requires
                    width >= 1,
            ;
        }
        let row: usize = patch / across * p + within % area / p;
        let col: usize = patch % across * p + within % area % p;
        order.push((channel * height + row) * width + col);
        i = i + 1;
        assert(order@ =~= Seq::new(
            i as nat,
            |i: int|
                patch_pixel(channels as int, height as int, width as int, p as int, i) as usize,
        ));
    }
    order
}

/// Every pixel of the image stands in one place of one patch: no two places
/// hold the same pixel.
pub proof fn law_patches_share_no_pixel(
    channels: int,
    height: int,
    width: int,
    p: int,
    i: int,
    j: int,
)
    requires
        channels > 0,
        height > 0,
        width > 0,
        cuts_whole(height, width, p),
        0 <= i < channels * height * width,
        0 <= j < channels * height * width,
        patch_pixel(channels, height, width, p, i) == patch_pixel(channels, height, width, p, j),
    ensures
        i == j,
{
    lemma_patch_pixel(channels, height, width, p, i);
    lemma_patch_pixel(channels, height, width, p, j);
    let area = p * p;
    let size = channels * area;
    let gw = width / p;
    let (pi, wi) = (i / size, i % size);
    let (pj, wj) = (j / size, j % size);
    let (ri, ci) = (pi / gw * p + wi % area / p, pi % gw * p + wi % area % p);
    let (rj, cj) = (pj / gw * p + wj % area / p, pj % gw * p + wj % area % p);
    let (oi, oj) = (wi / area * height + ri, wj / area * height + rj);
    vstd::arithmetic::div_mod::lemma_fundamental_div_mod_converse(oi * width + ci, width, oi, ci);
    vstd::arithmetic::div_mod::lemma_fundamental_div_mod_converse(oj * width + cj, width, oj, cj);
    assert(oi == oj && ci == cj);
    vstd::arithmetic::div_mod::lemma_fundamental_div_mod_converse(oi, height, wi / area, ri);
    vstd::arithmetic::div_mod::lemma_fundamental_div_mod_converse(oj, height, wj / area, rj);
    assert(wi / area == wj / area && ri == rj);
    vstd::arithmetic::div_mod::lemma_fundamental_div_mod_converse(ri, p, pi / gw, wi % area / p);
    vstd::arithmetic::div_mod::lemma_fundamental_div_mod_converse(rj, p, pj / gw, wj % area / p);
    vstd::arithmetic::div_mod::lemma_fundamental_div_mod_converse(ci, p, pi % gw, wi % area % p);
    vstd::arithmetic::div_mod::lemma_fundamental_div_mod_converse(cj, p, pj % gw, wj % area % p);
    assert(wi % area / p == wj % area / p && wi % area % p == wj % area % p);
    assert(pi / gw == pj / gw && pi % gw == pj % gw);
    vstd::arithmetic::div_mod::lemma_fundamental_div_mod(wi % area, p);
    vstd::arithmetic::div_mod::lemma_fundamental_div_mod(wj % area, p);
    assert(wi % area == wj % area);
    vstd::arithmetic::div_mod::lemma_fundamental_div_mod(wi, area);
    vstd::arithmetic::div_mod::lemma_fundamental_div_mod(wj, area);
    assert(wi == wj);
    vstd::arithmetic::div_mod::lemma_fundamental_div_mod(pi, gw);
    vstd::arithmetic::div_mod::lemma_fundamental_div_mod(pj, gw);
    assert(pi == pj);
    vstd::arithmetic::div_mod::lemma_fundamental_div_mod(i, size);
    vstd::arithmetic::div_mod::lemma_fundamental_div_mod(j, size);
}

/// Patches go through the image row by row, and a patch through its channels, each
/// row by row: place `(y, x)` of channel `c` of the patch in row `gy` and column
/// `gx` of patches is the pixel in row `gy * p + y` and column `gx * p + x` of that
/// channel.
pub proof fn law_patch_is_a_square_of_pixels(
    channels: int,
    height: int,
    width: int,
    p: int,
    gy: int,
    gx: int,
    c: int,
    y: int,
    x: int,
)
    requires
        channels > 0,
        height > 0,
        width > 0,
        p > 0,
        height % p == 0,
        width % p == 0,
        0 <= gy < height / p,
        0 <= gx < width / p,
        0 <= c < channels,
        0 <= y < p,
        0 <= x < p,
    ensures
        patch_pixel(
            channels,
            height,
            width,
            p,
            (gy * (width / p) + gx) * (channels * (p * p)) + (c * (p * p) + (y * p + x)),
        ) == (c * height + (gy * p + y)) * width + (gx * p + x),
{
    let area = p * p;
    let size = channels * area;
    let gw = width / p;
    let patch = gy * gw + gx;
    let place = y * p + x;
    let within = c * area + place;
    assert(0 <= place < area) by (nonlinear_arith)
        requires
            0 <= y < p,
            0 <= x < p,
            place == y * p + x,
            area == p * p,
    ;
    assert(0 <= within < size) by (nonlinear_arith)
        requires
            0 <= c < channels,
            0 <= place < area,
            within == c * area + place,
            size == channels * area,
    ;
    vstd::arithmetic::div_mod::lemma_fundamental_div_mod_converse(
        patch * size + within,
        size,
        patch,
        within,
    );
    vstd::arithmetic::div_mod::lemma_fundamental_div_mod_converse(within, area, c, place);
    vstd::arithmetic::div_mod::lemma_fundamental_div_mod_converse(place, p, y, x);
    vstd::arithmetic::div_mod::lemma_fundamental_div_mod_converse(patch, gw, gy, gx);
}

} // verus!
