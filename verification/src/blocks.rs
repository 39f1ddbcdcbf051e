//! Block streams: a tensor as a row of equal blocks of bytes, and the planes of
//! little-endian words that each field of the blocks becomes.

use vstd::prelude::*;

verus! {

/// The little-endian word at byte `at`.
pub open spec fn le_word(data: Seq<u8>, at: int) -> u32 {
    (data[at] + data[at + 1] * 0x100 + data[at + 2] * 0x1_0000 + data[at + 3] * 0x100_0000) as u32
}

/// The little-endian half word at byte `at`.
pub open spec fn le_half(data: Seq<u8>, at: int) -> u16 {
    (data[at] + data[at + 1] * 0x100) as u16
}

/// One field of every block: `words` words from byte `offset` of each block of
/// `bytes` bytes, block after block.
pub open spec fn plane(data: Seq<u8>, bytes: int, offset: int, words: int) -> Seq<u32> {
    Seq::new(
        (data.len() / (bytes as nat) * (words as nat)) as nat,
        |i: int| le_word(data, (i / words) * bytes + offset + 4 * (i % words)),
    )
}

/// One field of every block: `count` half words from byte `offset` of each
/// block of `bytes` bytes, block after block.
pub open spec fn half_plane(data: Seq<u8>, bytes: int, offset: int, count: int) -> Seq<u16> {
    Seq::new(
        (data.len() / (bytes as nat) * (count as nat)) as nat,
        |i: int| le_half(data, (i / count) * bytes + offset + 2 * (i % count)),
    )
}

/// Byte `at` of the stream that `words` hold in little-endian order.
pub open spec fn stream_byte(words: Seq<u32>, at: int) -> int {
    let word = words[at / 4] as int;
    let lane = at % 4;
    if lane == 0 {
        word % 0x100
    } else if lane == 1 {
        word / 0x100 % 0x100
    } else if lane == 2 {
        word / 0x1_0000 % 0x100
    } else {
        word / 0x100_0000
    }
}

/// The signed number that a byte stands for.
pub open spec fn signed(byte: int) -> int {
    if byte >= 128 {
        byte - 256
    } else {
        byte
    }
}

/// Reads the little-endian word at byte `at`.
fn read_word(data: &[u8], at: usize) -> (word: u32)
    requires
        at + 4 <= data@.len(),
    ensures
        word == le_word(data@, at as int),
        word == data@[at as int] + 256 * data@[at + 1] + 65536 * data@[at + 2] + 16777216 * data@[at
            + 3],
{
    data[at] as u32 + data[at + 1] as u32 * 0x100 + data[at + 2] as u32 * 0x1_0000 + data[at
        + 3] as u32 * 0x100_0000
}

/// Reads the little-endian half word at byte `at`.
fn read_half(data: &[u8], at: usize) -> (half: u16)
    requires
        at + 2 <= data@.len(),
    ensures
        half == le_half(data@, at as int),
        half == data@[at as int] + 256 * data@[at + 1],
{
    data[at] as u16 + data[at + 1] as u16 * 0x100
}

/// Item `i` of `items` per block belongs to block `i / items`.
proof fn lemma_item(block: int, item: int, items: int)
    requires
        0 <= item < items,
        0 <= block,
    ensures
        (block * items + item) / items == block,
        (block * items + item) % items == item,
{
    vstd::arithmetic::div_mod::lemma_fundamental_div_mod_converse(
        block * items + item,
        items,
        block,
        item,
    );
}

/// A block ends inside the stream.
proof fn lemma_block_fits(len: int, bytes: int, block: int)
    requires
        bytes > 0,
        len >= 0,
        0 <= block < len / bytes,
    ensures
        block * bytes + bytes <= len,
        block * bytes >= 0,
{
    vstd::arithmetic::div_mod::lemma_fundamental_div_mod(len, bytes);
    vstd::arithmetic::div_mod::lemma_mod_bound(len, bytes);
    assert(block * bytes + bytes <= len) by (nonlinear_arith)
        requires
            bytes > 0,
            len == bytes * (len / bytes) + len % bytes,
            len % bytes >= 0,
            block + 1 <= len / bytes,
    ;
    assert(block * bytes >= 0) by (nonlinear_arith)
        requires
            bytes > 0,
            block >= 0,
    ;
}

/// Collects one field of every block as words.
pub fn collect_words(data: &[u8], bytes: usize, offset: usize, words: usize) -> (out: Vec<u32>)
    requires
        bytes > 0,
        words > 0,
        offset + 4 * words <= bytes,
    ensures
        out@ == plane(data@, bytes as int, offset as int, words as int),
{
    let len: usize = data.len();
    let blocks: usize = len / bytes;
    let mut out: Vec<u32> = Vec::new();
    let mut block: usize = 0;
    let ghost all = plane(data@, bytes as int, offset as int, words as int);
    assert(all.take(0) =~= Seq::empty());
    while block < blocks
        invariant
            bytes > 0,
            words > 0,
            offset + 4 * words <= bytes,
            len == data@.len(),
            blocks == data@.len() as int / bytes as int,
            block <= blocks,
            all == plane(data@, bytes as int, offset as int, words as int),
            all.len() == blocks * words,
            out@ == all.take(block * words),
            0 <= block * words <= all.len(),
        decreases blocks - block,
    {
        proof {
            lemma_block_fits(data@.len() as int, bytes as int, block as int);
            assert((block + 1) * words == block * words + words) by (nonlinear_arith);
            assert((block + 1) * words <= blocks * words) by (nonlinear_arith)
                requires
                    block + 1 <= blocks,
                    words > 0,
            ;
        }
        let start: usize = block * bytes + offset;
        let mut w: usize = 0;
        assert(block * words + w == block * words);
        while w < words
            invariant
                bytes > 0,
                words > 0,
                offset + 4 * words <= bytes,
                block < blocks,
                len == data@.len(),
                block * bytes + bytes <= data@.len(),
                start == block * bytes + offset,
                w <= words,
                all == plane(data@, bytes as int, offset as int, words as int),
                0 <= block * words,
                block * words + words <= all.len(),
                out@ == all.take(block * words + w),
            decreases words - w,
        {
            proof {
                lemma_item(block as int, w as int, words as int);
            }
            out.push(read_word(data, start + 4 * w));
            assert(out@ =~= all.take(block * words + w + 1));
            w = w + 1;
        }
        block = block + 1;
    }
    assert(all.take(blocks * words) =~= all);
    out
}

/// Collects one field of every block as half words.
pub fn collect_halves(data: &[u8], bytes: usize, offset: usize, count: usize) -> (out: Vec<u16>)
    requires
        bytes > 0,
        count > 0,
        offset + 2 * count <= bytes,
    ensures
        out@ == half_plane(data@, bytes as int, offset as int, count as int),
{
    let len: usize = data.len();
    let blocks: usize = len / bytes;
    let mut out: Vec<u16> = Vec::new();
    let mut block: usize = 0;
    let ghost all = half_plane(data@, bytes as int, offset as int, count as int);
    assert(all.take(0) =~= Seq::empty());
    while block < blocks
        invariant
            bytes > 0,
            count > 0,
            offset + 2 * count <= bytes,
            len == data@.len(),
            blocks == data@.len() as int / bytes as int,
            block <= blocks,
            all == half_plane(data@, bytes as int, offset as int, count as int),
            all.len() == blocks * count,
            out@ == all.take(block * count),
            0 <= block * count <= all.len(),
        decreases blocks - block,
    {
        proof {
            lemma_block_fits(data@.len() as int, bytes as int, block as int);
            assert((block + 1) * count == block * count + count) by (nonlinear_arith);
            assert((block + 1) * count <= blocks * count) by (nonlinear_arith)
                requires
                    block + 1 <= blocks,
                    count > 0,
            ;
        }
        let start: usize = block * bytes + offset;
        let mut h: usize = 0;
        assert(block * count + h == block * count);
        while h < count
            invariant
                bytes > 0,
                count > 0,
                offset + 2 * count <= bytes,
                block < blocks,
                len == data@.len(),
                block * bytes + bytes <= data@.len(),
                start == block * bytes + offset,
                h <= count,
                all == half_plane(data@, bytes as int, offset as int, count as int),
                0 <= block * count,
                block * count + count <= all.len(),
                out@ == all.take(block * count + h),
            decreases count - h,
        {
            proof {
                lemma_item(block as int, h as int, count as int);
            }
            out.push(read_half(data, start + 2 * h));
            assert(out@ =~= all.take(block * count + h + 1));
            h = h + 1;
        }
        block = block + 1;
    }
    assert(all.take(blocks * count) =~= all);
    out
}

/// Reads byte `at` of the stream that `words` hold.
pub fn byte_at(words: &Vec<u32>, at: usize) -> (byte: u32)
    requires
        at / 4 < words@.len(),
    ensures
        byte == stream_byte(words@, at as int),
        byte < 256,
{
    let word: u32 = words[at / 4];
    let lane: usize = at % 4;
    if lane == 0 {
        word % 0x100
    } else if lane == 1 {
        word / 0x100 % 0x100
    } else if lane == 2 {
        word / 0x1_0000 % 0x100
    } else {
        word / 0x100_0000
    }
}

/// Reads byte `at` of the stream that `words` hold as a signed number.
pub fn i8_at(words: &Vec<u32>, at: usize) -> (value: i32)
    requires
        at / 4 < words@.len(),
    ensures
        value == signed(stream_byte(words@, at as int)),
        -128 <= value <= 127,
{
    let byte: u32 = byte_at(words, at);
    if byte >= 128 {
        byte as i32 - 256
    } else {
        byte as i32
    }
}

/// The bytes of a word are the bytes that it was read from.
proof fn lemma_word_bytes(b0: int, b1: int, b2: int, b3: int)
    requires
        0 <= b0 < 256,
        0 <= b1 < 256,
        0 <= b2 < 256,
        0 <= b3 < 256,
    ensures
        ({
            let word = b0 + b1 * 0x100 + b2 * 0x1_0000 + b3 * 0x100_0000;
            &&& 0 <= word <= u32::MAX
            &&& word % 0x100 == b0
            &&& word / 0x100 % 0x100 == b1
            &&& word / 0x1_0000 % 0x100 == b2
            &&& word / 0x100_0000 == b3
        }),
{
    let word = b0 + b1 * 0x100 + b2 * 0x1_0000 + b3 * 0x100_0000;
    let w1 = b1 + b2 * 0x100 + b3 * 0x1_0000;
    let w2 = b2 + b3 * 0x100;
    assert(word == 0x100 * w1 + b0);
    assert(w1 == 0x100 * w2 + b1);
    assert(word / 0x100 == w1 && word % 0x100 == b0);
    assert(w1 / 0x100 == w2 && w1 % 0x100 == b1);
    assert(w2 / 0x100 == b3 && w2 % 0x100 == b2);
    assert(word == 0x1_0000 * w2 + (b1 * 0x100 + b0));
    assert(word / 0x1_0000 == w2);
    assert(word == 0x100_0000 * b3 + (b2 * 0x1_0000 + b1 * 0x100 + b0));
    assert(word / 0x100_0000 == b3);
}

/// Byte `t` of a field of block `block`, read from the plane of that field, is
/// the byte of the stream.
pub proof fn law_plane_keeps_bytes(
    data: Seq<u8>,
    bytes: int,
    offset: int,
    words: int,
    block: int,
    t: int,
)
    requires
        bytes > 0,
        words > 0,
        0 <= offset,
        offset + 4 * words <= bytes,
        0 <= block < data.len() as int / bytes,
        0 <= t < 4 * words,
    ensures
        (block * (4 * words) + t) / 4 < plane(data, bytes, offset, words).len(),
        stream_byte(plane(data, bytes, offset, words), block * (4 * words) + t) == data[block
            * bytes + offset + t],
{
    let at = block * (4 * words) + t;
    let w = t / 4;
    let lane = t % 4;
    assert(block * (4 * words) == 4 * (block * words)) by (nonlinear_arith);
    assert(at == 4 * (block * words + w) + lane);
    assert(at / 4 == block * words + w);
    assert(at % 4 == lane);
    assert(block * words >= 0) by (nonlinear_arith)
        requires
            block >= 0,
            words > 0,
    ;
    lemma_item(block, w, words);
    lemma_block_fits(data.len() as int, bytes, block);
    let p = plane(data, bytes, offset, words);
    let blocks = data.len() as int / bytes;
    assert(p.len() == blocks * words);
    assert(block * words + w < blocks * words) by (nonlinear_arith)
        requires
            block + 1 <= blocks,
            0 <= w < words,
    ;
    let base = block * bytes + offset + 4 * w;
    lemma_word_bytes(
        data[base] as int,
        data[base + 1] as int,
        data[base + 2] as int,
        data[base + 3] as int,
    );
    assert(p[at / 4] == le_word(data, base));
}

/// A half word of a field of block `block`, taken from the plane of that field,
/// is the half word of the stream.
pub proof fn law_half_plane_keeps_halves(
    data: Seq<u8>,
    bytes: int,
    offset: int,
    count: int,
    block: int,
    h: int,
)
    requires
        bytes > 0,
        count > 0,
        0 <= offset,
        offset + 2 * count <= bytes,
        0 <= block < data.len() as int / bytes,
        0 <= h < count,
    ensures
        block * count + h < half_plane(data, bytes, offset, count).len(),
        half_plane(data, bytes, offset, count)[block * count + h] == le_half(
            data,
            block * bytes + offset + 2 * h,
        ),
        half_plane(data, bytes, offset, count)[block * count + h] == data[block * bytes + offset + 2
            * h] + 256 * data[block * bytes + offset + 2 * h + 1],
{
    lemma_item(block, h, count);
    let blocks = data.len() as int / bytes;
    assert(block * count + h < blocks * count) by (nonlinear_arith)
        requires
            block + 1 <= blocks,
            0 <= h < count,
    ;
    assert(block * count >= 0) by (nonlinear_arith)
        requires
            block >= 0,
            count > 0,
    ;
}

/// A word is four bytes of the stream, the lowest first.
pub proof fn law_word_is_four_bytes(words: Seq<u32>, i: int)
    requires
        0 <= i,
    ensures
        words[i] == stream_byte(words, 4 * i) + 256 * stream_byte(words, 4 * i + 1) + 65536
            * stream_byte(words, 4 * i + 2) + 16777216 * stream_byte(words, 4 * i + 3),
        forall|t: int| 0 <= t < 4 ==> 0 <= #[trigger] stream_byte(words, 4 * i + t) < 256,
{
    let word = words[i] as int;
    assert((4 * i) / 4 == i && (4 * i + 1) / 4 == i && (4 * i + 2) / 4 == i && (4 * i + 3) / 4
        == i);
    assert((4 * i) % 4 == 0 && (4 * i + 1) % 4 == 1 && (4 * i + 2) % 4 == 2 && (4 * i + 3) % 4
        == 3);
    let (w1, w2) = (word / 0x100, word / 0x1_0000);
    assert(w1 / 0x100 == w2);
    assert(w2 / 0x100 == word / 0x100_0000);
    assert(word == 0x100 * w1 + word % 0x100);
    assert(w1 == 0x100 * w2 + w1 % 0x100);
    assert(w2 == 0x100 * (word / 0x100_0000) + w2 % 0x100);
    assert forall|t: int| 0 <= t < 4 implies 0 <= #[trigger] stream_byte(words, 4 * i + t)
        < 256 by {
        assert(t == 0 || t == 1 || t == 2 || t == 3);
    }
}

/// A signed byte is the byte itself or 256 less, whichever lies between -128 and
/// 127.
pub proof fn law_signed_bytes(byte: int)
    requires
        0 <= byte < 256,
    ensures
        -128 <= signed(byte) <= 127,
        signed(byte) == byte || signed(byte) == byte - 256,
{
}

} // verus!
