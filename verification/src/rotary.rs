//! Where a rotary embedding reads: each number of a head turns together with
//! the one half a head away, by an angle that both of them share.

use vstd::prelude::*;

verus! {

/// The number that turns together with number `c` of a head of width `d`.
pub open spec fn mate(c: int, d: int) -> int {
    if c < d / 2 {
        c + d / 2
    } else {
        c - d / 2
    }
}

/// The mate of number `c` goes in with its sign turned.
pub open spec fn negated(c: int, d: int) -> bool {
    c < d / 2
}

/// The frequency by which number `c` of a head turns.
pub open spec fn frequency(c: int, d: int) -> int {
    c % (d / 2)
}

/// Turning by a half twice brings each number back to its place with its sign
/// turned.
pub proof fn law_half_turn_twice(c: int, d: int)
    requires
        d % 2 == 0,
        0 <= c < d,
    ensures
        0 <= mate(c, d) < d,
        mate(mate(c, d), d) == c,
        negated(c, d) != negated(mate(c, d), d),
{
}

/// Numbers that turn together turn by the same angle.
pub proof fn law_mates_share_a_frequency(c: int, d: int)
    requires
        d % 2 == 0,
        0 <= c < d,
    ensures
        frequency(c, d) == frequency(mate(c, d), d),
        0 <= frequency(c, d) < d / 2,
{
    let h = d / 2;
    assert(d == 2 * h);
    let low = if c < h {
        c
    } else {
        c - h
    };
    vstd::arithmetic::div_mod::lemma_small_mod(low as nat, h as nat);
    vstd::arithmetic::div_mod::lemma_mod_add_multiples_vanish(low, h);
    assert((h + low) % h == low % h);
}

/// What makes up one rotated number.
#[derive(Debug, Clone, Copy, PartialEq, Eq, Structural)]
pub struct Rotation {
    /// The number itself, which is multiplied by the cosine.
    pub at: usize,
    /// The number that turns with it, which is multiplied by the sine.
    pub mate: usize,
    /// The sign of the second one is turned.
    pub negate: bool,
    /// The place of cosine and sine in their tables.
    pub table: usize,
}

/// Number `c` of row `r` of head `h`, in a tensor of `seq` rows of width `d` whose
/// first row stands at position `pos`.
pub fn rotation(h: usize, r: usize, c: usize, seq: usize, d: usize, pos: usize) -> (turn: Rotation)
    requires
        d % 2 == 0,
        c < d,
        r < seq,
        (h + 1) * seq * d <= usize::MAX,
        (pos + seq) * d <= usize::MAX,
    ensures
        turn == (Rotation {
            at: ((h * seq + r) * d + c) as usize,
            mate: ((h * seq + r) * d + mate(c as int, d as int)) as usize,
            negate: negated(c as int, d as int),
            table: ((pos + r) * d + c) as usize,
        }),
        turn.at == (h * seq + r) * d + c,
        turn.table == (pos + r) * d + c,
        2 * c < d ==> turn.negate && 2 * (turn.mate - turn.at) == d,
        2 * c >= d ==> !turn.negate && 2 * (turn.at - turn.mate) == d,
        (h * seq + r) * d + c < (h + 1) * seq * d,
        (h * seq + r) * d + mate(c as int, d as int) < (h + 1) * seq * d,
        (pos + r) * d + c < (pos + seq) * d,
{
    let half: usize = d / 2;
    proof {
        let (hh, rr, ss, dd, pp) = (h as int, r as int, seq as int, d as int, pos as int);
        assert(0 <= hh * ss && hh * ss + rr < (hh + 1) * ss) by (nonlinear_arith)
            requires
                0 <= rr < ss,
                hh >= 0,
        ;
        assert(0 <= (hh * ss + rr) * dd && (hh * ss + rr + 1) * dd <= (hh + 1) * ss * dd && hh * ss
            + rr <= (hh * ss + rr + 1) * dd && (hh * ss + rr + 1) * dd == (hh * ss + rr) * dd + dd)
            by (nonlinear_arith)
            requires
                0 <= hh * ss,
                rr >= 0,
                hh * ss + rr + 1 <= (hh + 1) * ss,
                dd >= 1,
        ;
        assert(0 <= (pp + rr) * dd && (pp + rr + 1) * dd <= (pp + ss) * dd && pp + rr <= (pp + rr
            + 1) * dd && (pp + rr + 1) * dd == (pp + rr) * dd + dd) by (nonlinear_arith)
            requires
                pp >= 0,
                0 <= rr < ss,
                dd >= 1,
        ;
    }
    let row: usize = (h * seq + r) * d;
    let at: usize = row + c;
    let negate: bool = c < half;
    let mate: usize = if negate {
        at + half
    } else {
        at - half
    };
    Rotation { at, mate, negate, table: (pos + r) * d + c }
}

/// The position and the frequency of entry `t` of a table whose rows hold `half`
/// frequencies twice.
pub fn table_entry(t: usize, half: usize) -> (entry: (usize, usize))
    requires
        half > 0,
        half * 2 <= usize::MAX,
    ensures
        t == entry.0 * (2 * half) + entry.1 || t == entry.0 * (2 * half) + half + entry.1,
        entry.0 == t as int / (2 * half),
        entry.1 == t as int % (2 * half) % (half as int),
        entry.1 == frequency(t as int % (2 * half), 2 * half),
        entry.1 < half,
{
    proof {
        let row = 2 * half as int;
        vstd::arithmetic::div_mod::lemma_fundamental_div_mod(t as int, row);
        vstd::arithmetic::div_mod::lemma_mod_bound(t as int, row);
        let c = t as int % row;
        assert(row * (t as int / row) == (t as int / row) * row) by (nonlinear_arith);
        if c < half {
            vstd::arithmetic::div_mod::lemma_small_mod(c as nat, half as nat);
        } else {
            vstd::arithmetic::div_mod::lemma_fundamental_div_mod_converse(
                c,
                half as int,
                1,
                c - half,
            );
        }
    }
    let row: usize = half * 2;
    (t / row, t % row % half)
}

} // verus!
