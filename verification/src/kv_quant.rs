//! How quantized rows are packed: four signed bytes to an integer.
//!
//! The first three lanes of an integer are stored offset by 128, the fourth as
//! it is, so that the largest word is exactly the largest integer.

use vstd::prelude::*;

verus! {

/// A lane holds a quantized value.
pub open spec fn in_lane(q: int) -> bool {
    -127 <= q <= 127
}

/// The word that holds four quantized values.
pub open spec fn word_of(q0: int, q1: int, q2: int, q3: int) -> int {
    (q0 + 128) + (q1 + 128) * 256 + (q2 + 128) * 65536 + q3 * 16777216
}

/// The lanes of a word, by division that rounds down.
pub open spec fn lanes_of(word: int) -> (int, int, int, int) {
    (
        word % 256 - 128,
        word / 256 % 256 - 128,
        word / 65536 % 256 - 128,
        word / 16777216,
    )
}

/// The words that hold `values`, four to a word.
pub open spec fn words_of(values: Seq<i32>) -> Seq<i32> {
    Seq::new(
        values.len() / 4,
        |g: int|
            word_of(
                values[4 * g] as int,
                values[4 * g + 1] as int,
                values[4 * g + 2] as int,
                values[4 * g + 3] as int,
            ) as i32,
    )
}

/// The values that `words` hold.
pub open spec fn values_of(words: Seq<i32>) -> Seq<i32> {
    Seq::new(
        4 * words.len(),
        |i: int|
            {
                let lanes = lanes_of(words[i / 4] as int);
                (if i % 4 == 0 {
                    lanes.0
                } else if i % 4 == 1 {
                    lanes.1
                } else if i % 4 == 2 {
                    lanes.2
                } else {
                    lanes.3
                }) as i32
            },
    )
}

/// Every word of four lanes fits an integer.
pub proof fn law_words_fit(q0: int, q1: int, q2: int, q3: int)
    requires
        in_lane(q0),
        in_lane(q1),
        in_lane(q2),
        in_lane(q3),
    ensures
        i32::MIN <= word_of(q0, q1, q2, q3) <= i32::MAX,
        q0 == 127 && q1 == 127 && q2 == 127 && q3 == 127 ==> word_of(q0, q1, q2, q3) == i32::MAX,
{
}

/// A word is made of its bytes in one way only.
proof fn lemma_bytes_of(word: int, l0: int, l1: int, l2: int, q3: int)
    requires
        0 <= l0 < 256,
        0 <= l1 < 256,
        0 <= l2 < 256,
        word == l0 + l1 * 256 + l2 * 65536 + q3 * 16777216,
    ensures
        lanes_of(word) == (l0 - 128, l1 - 128, l2 - 128, q3),
{
    let w1 = l1 + l2 * 256 + q3 * 65536;
    let w2 = l2 + q3 * 256;
    assert(word == 256 * w1 + l0);
    assert(w1 == 256 * w2 + l1);
    assert(word / 256 == w1 && word % 256 == l0);
    assert(w1 / 256 == w2 && w1 % 256 == l1);
    assert(w2 / 256 == q3 && w2 % 256 == l2);
    assert(word == 65536 * w2 + (l1 * 256 + l0));
    assert(word / 65536 == w2);
    assert(word == 16777216 * q3 + (l2 * 65536 + l1 * 256 + l0));
    assert(word / 16777216 == q3);
}

/// Unpacking a word gives back the four values packed into it.
pub proof fn law_lanes_round_trip(q0: int, q1: int, q2: int, q3: int)
    requires
        in_lane(q0),
        in_lane(q1),
        in_lane(q2),
        in_lane(q3),
    ensures
        lanes_of(word_of(q0, q1, q2, q3)) == (q0, q1, q2, q3),
{
    lemma_bytes_of(word_of(q0, q1, q2, q3), q0 + 128, q1 + 128, q2 + 128, q3);
}

/// Packs four quantized values into a word.
pub fn pack_word(q0: i32, q1: i32, q2: i32, q3: i32) -> (word: i32)
    requires
        in_lane(q0 as int),
        in_lane(q1 as int),
        in_lane(q2 as int),
        in_lane(q3 as int),
    ensures
        word == word_of(q0 as int, q1 as int, q2 as int, q3 as int),
        word == (q0 + 128) + 256 * (q1 + 128) + 65536 * (q2 + 128) + 16777216 * q3,
{
    (q0 + 128) + (q1 + 128) * 256 + (q2 + 128) * 65536 + q3 * 16777216
}

/// Unpacks the four lanes of a word. Integer division rounds toward zero, so a
/// negative remainder of the high lane is brought back into range.
pub fn unpack_word(word: i32) -> (lanes: (i32, i32, i32, i32))
    ensures
        (lanes.0 as int, lanes.1 as int, lanes.2 as int, lanes.3 as int) == lanes_of(word as int),
        word == (lanes.0 + 128) + 256 * (lanes.1 + 128) + 65536 * (lanes.2 + 128) + 16777216
            * lanes.3,
        -128 <= lanes.0 < 128,
        -128 <= lanes.1 < 128,
        -128 <= lanes.2 < 128,
{
    let t: i32 = word / 16777216;
    let rest: i32 = word - t * 16777216;
    let q3: i32 = if rest < 0 {
        t - 1
    } else {
        t
    };
    let r: i32 = if rest < 0 {
        rest + 16777216
    } else {
        rest
    };
    let l2: i32 = r / 65536;
    let low: i32 = r - l2 * 65536;
    let l1: i32 = low / 256;
    let l0: i32 = low - l1 * 256;
    proof {
        lemma_bytes_of(word as int, l0 as int, l1 as int, l2 as int, q3 as int);
    }
    (l0 - 128, l1 - 128, l2 - 128, q3)
}

/// Packs quantized values, four to a word.
pub fn pack_lanes(values: &Vec<i32>) -> (words: Vec<i32>)
    requires
        values@.len() % 4 == 0,
        forall|i: int| 0 <= i < values@.len() ==> in_lane(#[trigger] values@[i] as int),
    ensures
        words@ == words_of(values@),
{
    let mut words: Vec<i32> = Vec::new();
    let mut at: usize = 0;
    while at < values.len()
        invariant
            at <= values@.len(),
            values@.len() % 4 == 0,
            at % 4 == 0,
            words@.len() == at / 4,
            words@ == words_of(values@).take(at as int / 4),
            forall|i: int| 0 <= i < values@.len() ==> in_lane(#[trigger] values@[i] as int),
        decreases values@.len() - at,
    {
        let word: i32 = pack_word(values[at], values[at + 1], values[at + 2], values[at + 3]);
        proof {
            let g = at as int / 4;
            assert(4 * g == at);
            law_words_fit(
                values@[at as int] as int,
                values@[at + 1] as int,
                values@[at + 2] as int,
                values@[at + 3] as int,
            );
            assert(words_of(values@)[g] == word);
        }
        words.push(word);
        at = at + 4;
        assert(words@ =~= words_of(values@).take(at as int / 4));
    }
    assert(words_of(values@).take(at as int / 4) =~= words_of(values@));
    words
}

/// Unpacks the values that words hold.
pub fn unpack_lanes(words: &Vec<i32>) -> (values: Vec<i32>)
    ensures
        values@ == values_of(words@),
{
    let mut values: Vec<i32> = Vec::new();
    let mut g: usize = 0;
    while g < words.len()
        invariant
            g <= words@.len(),
            values@ == values_of(words@).take(4 * g),
        decreases words@.len() - g,
    {
        let lanes = unpack_word(words[g]);
        let ghost before = values@;
        values.push(lanes.0);
        values.push(lanes.1);
        values.push(lanes.2);
        values.push(lanes.3);
        proof {
            assert forall|i: int| 0 <= i < 4 * (g + 1) implies values@[i] == values_of(
                words@,
            )[i] by {
                if i < 4 * g {
                    assert(values@[i] == before[i]);
                } else {
                    assert(i / 4 == g);
                }
            }
            assert(values@ =~= values_of(words@).take(4 * (g + 1)));
        }
        g = g + 1;
    }
    assert(values_of(words@).take(4 * g as int) =~= values_of(words@));
    values
}

/// Packing then unpacking any number of quantized values changes nothing.
pub proof fn law_rows_round_trip(values: Seq<i32>)
    requires
        values.len() % 4 == 0,
        forall|i: int| 0 <= i < values.len() ==> in_lane(#[trigger] values[i] as int),
    ensures
        values_of(words_of(values)) == values,
{
    let words = words_of(values);
    assert forall|i: int| 0 <= i < values.len() implies values_of(words)[i] == values[i] by {
        let g = i / 4;
        assert(in_lane(values[4 * g] as int));
        assert(in_lane(values[4 * g + 1] as int));
        assert(in_lane(values[4 * g + 2] as int));
        assert(in_lane(values[4 * g + 3] as int));
        law_words_fit(
            values[4 * g] as int,
            values[4 * g + 1] as int,
            values[4 * g + 2] as int,
            values[4 * g + 3] as int,
        );
        law_lanes_round_trip(
            values[4 * g] as int,
            values[4 * g + 1] as int,
            values[4 * g + 2] as int,
            values[4 * g + 3] as int,
        );
    }
    assert(values_of(words) =~= values);
}

/// The first of four values stands in the lowest byte of their word, the last in
/// the highest; all but the last are offset by 128.
pub proof fn law_words_hold_values_in_order(values: Seq<i32>, g: int)
    requires
        values.len() % 4 == 0,
        forall|i: int| 0 <= i < values.len() ==> in_lane(#[trigger] values[i] as int),
        0 <= g < values.len() / 4,
    ensures
        words_of(values).len() * 4 == values.len(),
        words_of(values)[g] == (values[4 * g] + 128) + 256 * (values[4 * g + 1] + 128) + 65536 * (
        values[4 * g + 2] + 128) + 16777216 * values[4 * g + 3],
{
    assert(in_lane(values[4 * g] as int));
    assert(in_lane(values[4 * g + 1] as int));
    assert(in_lane(values[4 * g + 2] as int));
    assert(in_lane(values[4 * g + 3] as int));
    law_words_fit(
        values[4 * g] as int,
        values[4 * g + 1] as int,
        values[4 * g + 2] as int,
        values[4 * g + 3] as int,
    );
}

} // verus!
