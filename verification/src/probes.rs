//! Fixtures of the probes that hold a device to its word.
//!
//! A probe fills an arena with known rows, runs a kernel over it and compares
//! what comes back. Here stand the parts that are counted, not measured: where
//! each row goes, which keys count, which bytes and lanes are fed in, and which
//! index comes back where.

use vstd::prelude::*;

use crate::arith::{ceil_div, lemma_block_of};
use crate::attend::{first_visible, hidden};
use crate::catalog::same_list;
use crate::error::{list_text, listed};
use crate::kv_quant::{
    in_lane, lanes_of, law_lanes_round_trip, law_words_fit, pack_word, word_of,
};

verus! {

/// The page that each of `pages` logical pages lives in: all of them moved on by
/// `shift`, round the `num_pages` there are.
pub open spec fn rotated(pages: nat, num_pages: usize, shift: usize) -> Seq<i32> {
    Seq::new(pages, |p: int| ((p + shift) % (num_pages as int)) as i32)
}

/// A page table that is no identity and yet gives no page twice.
pub fn rotated_table(pages: usize, num_pages: usize, shift: usize) -> (table: Vec<i32>)
    requires
        0 < num_pages <= i32::MAX,
        pages + shift <= usize::MAX,
    ensures
        table@ == rotated(pages as nat, num_pages, shift),
{
    let mut table: Vec<i32> = Vec::new();
    let mut p: usize = 0;
    while p < pages
        invariant
            p <= pages,
            0 < num_pages <= i32::MAX,
            pages + shift <= usize::MAX,
            table@ == rotated(p as nat, num_pages, shift),
        decreases pages - p,
    {
        proof {
            vstd::arithmetic::div_mod::lemma_mod_bound(p + shift, num_pages as int);
        }
        table.push(((p + shift) % num_pages) as i32);
        p = p + 1;
        assert(table@ =~= rotated(p as nat, num_pages, shift));
    }
    table
}

/// Every entry of `table` is one of `num_pages` pages.
pub open spec fn in_pages(table: Seq<i32>, num_pages: int) -> bool {
    forall|p: int| 0 <= p < table.len() ==> 0 <= #[trigger] table[p] < num_pages
}

/// No page stands in `table` twice.
pub open spec fn collision_free(table: Seq<i32>) -> bool {
    forall|p: int, q: int|
        0 <= p < table.len() && 0 <= q < table.len() && #[trigger] table[p] == #[trigger] table[q]
            ==> p == q
}

/// A rotation gives every logical page a page of its own, whatever the number of
/// pages.
pub proof fn law_rotation_is_collision_free(pages: nat, num_pages: usize, shift: usize)
    requires
        pages <= num_pages <= i32::MAX,
        num_pages > 0,
    ensures
        in_pages(rotated(pages, num_pages, shift), num_pages as int),
        collision_free(rotated(pages, num_pages, shift)),
{
    let n = num_pages as int;
    let table = rotated(pages, num_pages, shift);
    assert forall|p: int| 0 <= p < table.len() implies 0 <= #[trigger] table[p] < num_pages by {
        vstd::arithmetic::div_mod::lemma_mod_bound(p + shift, n);
    }
    assert forall|p: int, q: int|
        0 <= p < table.len() && 0 <= q < table.len() && #[trigger] table[p]
            == #[trigger] table[q] implies p == q by {
        vstd::arithmetic::div_mod::lemma_mod_bound(p + shift, n);
        vstd::arithmetic::div_mod::lemma_mod_bound(q + shift, n);
        vstd::arithmetic::div_mod::lemma_fundamental_div_mod(p + shift, n);
        vstd::arithmetic::div_mod::lemma_fundamental_div_mod(q + shift, n);
        let a = (p + shift) / n;
        let b = (q + shift) / n;
        assert(p - q == n * (a - b)) by (nonlinear_arith)
            requires
                p + shift == n * a + (p + shift) % n,
                q + shift == n * b + (q + shift) % n,
                (p + shift) % n == (q + shift) % n,
        ;
        assert(a == b) by (nonlinear_arith)
            requires
                p - q == n * (a - b),
                -n < p - q < n,
        ;
        assert(n * (a - b) == 0) by (nonlinear_arith)
            requires
                a == b,
        ;
    }
}

/// The row of an arena `[pages, n_kv, page_size]` that holds key `j` of head `g`.
pub open spec fn arena_row(table: Seq<i32>, n_kv: int, page_size: int, g: int, j: int) -> int {
    (table[j / page_size] * n_kv + g) * page_size + j % page_size
}

/// The keys that an arena holds fit it.
pub open spec fn arena_fits(
    table: Seq<i32>,
    num_pages: int,
    n_kv: int,
    page_size: int,
    total: int,
) -> bool {
    n_kv > 0 && page_size > 0 && table.len() >= ceil_div(total, page_size) && in_pages(
        table,
        num_pages,
    ) && collision_free(table)
}

/// A row is made of its page, its head and its slot in one way only.
proof fn lemma_row_parts(page: int, n_kv: int, page_size: int, g: int, slot: int)
    requires
        page >= 0,
        0 <= g < n_kv,
        0 <= slot < page_size,
    ensures
        ((page * n_kv + g) * page_size + slot) % page_size == slot,
        ((page * n_kv + g) * page_size + slot) / page_size % n_kv == g,
        ((page * n_kv + g) * page_size + slot) / page_size / n_kv == page,
{
    let outer = page * n_kv + g;
    let row = outer * page_size + slot;
    assert(outer >= 0) by (nonlinear_arith)
        requires
            page >= 0,
            n_kv > 0,
            g >= 0,
            outer == page * n_kv + g,
    ;
    vstd::arithmetic::div_mod::lemma_fundamental_div_mod_converse(row, page_size, outer, slot);
    vstd::arithmetic::div_mod::lemma_fundamental_div_mod_converse(outer, n_kv, page, g);
}

/// Each key of each head has a row of the arena to itself, and no row lies
/// outside it.
pub proof fn law_rows_do_not_collide(
    table: Seq<i32>,
    num_pages: int,
    n_kv: int,
    page_size: int,
    total: int,
    g: int,
    j: int,
    h: int,
    k: int,
)
    requires
        arena_fits(table, num_pages, n_kv, page_size, total),
        0 <= g < n_kv,
        0 <= h < n_kv,
        0 <= j < total,
        0 <= k < total,
    ensures
        0 <= arena_row(table, n_kv, page_size, g, j) < num_pages * n_kv * page_size,
        arena_row(table, n_kv, page_size, g, j) == arena_row(table, n_kv, page_size, h, k) ==> g
            == h && j == k,
{
    lemma_block_of(j, total, page_size);
    lemma_block_of(k, total, page_size);
    let p = table[j / page_size] as int;
    let q = table[k / page_size] as int;
    lemma_row_parts(p, n_kv, page_size, g, j % page_size);
    lemma_row_parts(q, n_kv, page_size, h, k % page_size);
    let row = arena_row(table, n_kv, page_size, g, j);
    assert(0 <= row < num_pages * n_kv * page_size) by (nonlinear_arith)
        requires
            row == (p * n_kv + g) * page_size + j % page_size,
            0 <= p < num_pages,
            0 <= g < n_kv,
            0 <= j % page_size < page_size,
    ;
}

/// What each row of the arena holds: the keys of head 0, then those of head 1
/// and so on are numbered from 0; a row that holds none is `None`.
pub open spec fn rows_hold(
    rows: Seq<Option<usize>>,
    table: Seq<i32>,
    n_kv: int,
    page_size: int,
    total: int,
) -> bool {
    &&& forall|g: int, j: int|
        0 <= g < n_kv && 0 <= j < total ==> rows[#[trigger] arena_row(
            table,
            n_kv,
            page_size,
            g,
            j,
        )] == Some((g * total + j) as usize)
    &&& forall|r: int|
        0 <= r < rows.len() && #[trigger] rows[r] is Some ==> exists|g: int, j: int|
            0 <= g < n_kv && 0 <= j < total && r == #[trigger] arena_row(
                table,
                n_kv,
                page_size,
                g,
                j,
            )
}

/// Key `j` of head `g` comes before key `j0` of head `g0` in the order in which an
/// arena is filled.
spec fn filled(g: int, j: int, g0: int, j0: int) -> bool {
    j < j0 || (j == j0 && g < g0)
}

/// Part of `rows_hold`: the keys before key `j0` of head `g0` stand in the arena.
spec fn rows_hold_until(
    rows: Seq<Option<usize>>,
    table: Seq<i32>,
    n_kv: int,
    page_size: int,
    total: int,
    g0: int,
    j0: int,
) -> bool {
    &&& forall|g: int, j: int|
        0 <= g < n_kv && 0 <= j < total && filled(g, j, g0, j0) ==> rows[#[trigger] arena_row(
            table,
            n_kv,
            page_size,
            g,
            j,
        )] == Some((g * total + j) as usize)
    &&& forall|r: int|
        0 <= r < rows.len() && #[trigger] rows[r] is Some ==> exists|g: int, j: int|
            0 <= g < n_kv && 0 <= j < total && filled(g, j, g0, j0) && r == #[trigger] arena_row(
                table,
                n_kv,
                page_size,
                g,
                j,
            )
}

/// One more key stands in the arena.
proof fn lemma_fill_row(
    before: Seq<Option<usize>>,
    table: Seq<i32>,
    num_pages: int,
    n_kv: int,
    page_size: int,
    total: int,
    g0: int,
    j0: int,
)
    requires
        arena_fits(table, num_pages, n_kv, page_size, total),
        before.len() == num_pages * n_kv * page_size,
        0 <= g0 < n_kv,
        0 <= j0 < total,
        rows_hold_until(before, table, n_kv, page_size, total, g0, j0),
    ensures
        0 <= arena_row(table, n_kv, page_size, g0, j0) < before.len(),
        rows_hold_until(
            before.update(
                arena_row(table, n_kv, page_size, g0, j0),
                Some((g0 * total + j0) as usize),
            ),
            table,
            n_kv,
            page_size,
            total,
            g0 + 1,
            j0,
        ),
{
    let at = arena_row(table, n_kv, page_size, g0, j0);
    let after = before.update(at, Some((g0 * total + j0) as usize));
    law_rows_do_not_collide(table, num_pages, n_kv, page_size, total, g0, j0, g0, j0);
    assert forall|g: int, j: int|
        0 <= g < n_kv && 0 <= j < total && filled(g, j, g0 + 1, j0) implies after[
        #[trigger] arena_row(table, n_kv, page_size, g, j)] == Some((g * total + j) as usize) by {
        law_rows_do_not_collide(table, num_pages, n_kv, page_size, total, g, j, g0, j0);
        if arena_row(table, n_kv, page_size, g, j) != at {
            assert(filled(g, j, g0, j0));
        }
    }
    assert forall|r: int| 0 <= r < after.len() && #[trigger] after[r] is Some implies exists|
        g: int,
        j: int,
    |
        0 <= g < n_kv && 0 <= j < total && filled(g, j, g0 + 1, j0) && r == #[trigger] arena_row(
            table,
            n_kv,
            page_size,
            g,
            j,
        ) by {
        if r == at {
            assert(filled(g0, j0, g0 + 1, j0) && r == arena_row(table, n_kv, page_size, g0, j0));
        } else {
            assert(before[r] is Some);
            let (g, j) = choose|g: int, j: int|
                0 <= g < n_kv && 0 <= j < total && filled(g, j, g0, j0) && r
                    == #[trigger] arena_row(table, n_kv, page_size, g, j);
            assert(filled(g, j, g0 + 1, j0) && r == arena_row(table, n_kv, page_size, g, j));
        }
    }
}

/// Lays the keys out in an arena `[num_pages, n_kv, page_size]`, page by page as
/// the table says.
pub fn arena_rows(
    table: &Vec<i32>,
    num_pages: usize,
    n_kv: usize,
    page_size: usize,
    total: usize,
) -> (rows: Vec<Option<usize>>)
    requires
        arena_fits(table@, num_pages as int, n_kv as int, page_size as int, total as int),
        num_pages * n_kv * page_size <= usize::MAX,
        n_kv * total <= usize::MAX,
    ensures
        rows@.len() == num_pages * n_kv * page_size,
        rows_hold(rows@, table@, n_kv as int, page_size as int, total as int),
        forall|g: int, j: int|
            0 <= g < n_kv && 0 <= j < total ==> rows@[#[trigger] arena_row(
                table@,
                n_kv as int,
                page_size as int,
                g,
                j,
            )] == Some((g * total + j) as usize),
{
    proof {
        assert(num_pages * n_kv <= num_pages * n_kv * page_size) by (nonlinear_arith)
            requires
                page_size >= 1,
        ;
    }
    let len: usize = num_pages * n_kv * page_size;
    let mut rows: Vec<Option<usize>> = Vec::new();
    let mut i: usize = 0;
    while i < len
        invariant
            i <= len,
            rows@.len() == i,
            forall|r: int| 0 <= r < i ==> #[trigger] rows@[r] is None,
        decreases len - i,
    {
        rows.push(None);
        i = i + 1;
    }
    let mut j: usize = 0;
    while j < total
        invariant
            j <= total,
            len == num_pages * n_kv * page_size,
            rows@.len() == len,
            arena_fits(table@, num_pages as int, n_kv as int, page_size as int, total as int),
            num_pages * n_kv <= usize::MAX,
            n_kv * total <= usize::MAX,
            rows_hold_until(
                rows@,
                table@,
                n_kv as int,
                page_size as int,
                total as int,
                0,
                j as int,
            ),
        decreases total - j,
    {
        proof {
            lemma_block_of(j as int, total as int, page_size as int);
        }
        let page: usize = table[j / page_size] as usize;
        let mut g: usize = 0;
        while g < n_kv
            invariant
                g <= n_kv,
                j < total,
                page == table@[j as int / page_size as int],
                0 <= j as int / (page_size as int) < table@.len(),
                len == num_pages * n_kv * page_size,
                rows@.len() == len,
                arena_fits(table@, num_pages as int, n_kv as int, page_size as int, total as int),
                n_kv * total <= usize::MAX,
                rows_hold_until(
                    rows@,
                    table@,
                    n_kv as int,
                    page_size as int,
                    total as int,
                    g as int,
                    j as int,
                ),
            decreases n_kv - g,
        {
            proof {
                let ghost_page = page as int;
                law_rows_do_not_collide(
                    table@,
                    num_pages as int,
                    n_kv as int,
                    page_size as int,
                    total as int,
                    g as int,
                    j as int,
                    g as int,
                    j as int,
                );
                lemma_fill_row(
                    rows@,
                    table@,
                    num_pages as int,
                    n_kv as int,
                    page_size as int,
                    total as int,
                    g as int,
                    j as int,
                );
                assert(ghost_page * n_kv <= len && (ghost_page * n_kv + g) * page_size <= len
                    && ghost_page * n_kv + g <= len) by (nonlinear_arith)
                    requires
                        0 <= ghost_page < num_pages,
                        0 <= g < n_kv,
                        page_size >= 1,
                        len == num_pages * n_kv * page_size,
                ;
                assert(g * total + j < n_kv * total) by (nonlinear_arith)
                    requires
                        0 <= g < n_kv,
                        j < total,
                ;
                assert(g * total <= n_kv * total) by (nonlinear_arith)
                    requires
                        0 <= g < n_kv,
                ;
            }
            let row: usize = (page * n_kv + g) * page_size + j % page_size;
            rows.set(row, Some(g * total + j));
            g = g + 1;
        }
        proof {
            assert forall|g1: int, j1: int|
                0 <= g1 < n_kv && 0 <= j1 < total implies filled(g1, j1, g as int, j as int)
                == filled(g1, j1, 0, j + 1) by {}
        }
        j = j + 1;
    }
    proof {
        assert forall|g1: int, j1: int| 0 <= g1 < n_kv && 0 <= j1 < total implies filled(
            g1,
            j1,
            0,
            j as int,
        ) by {}
    }
    rows
}

/// The head, the key and the column of number `i` where the keys of each head
/// stand behind one another.
pub fn contiguous_place(i: usize, total: usize, d: usize) -> (place: (usize, usize, usize))
    requires
        total > 0,
        d > 0,
        total * d <= usize::MAX,
    ensures
        place.1 < total,
        place.2 < d,
        (place.0 * total + place.1) * d + place.2 == i,
{
    proof {
        let (t, w) = (total as int, d as int);
        assert(t * w > 0) by (nonlinear_arith)
            requires
                t > 0,
                w > 0,
        ;
        vstd::arithmetic::div_mod::lemma_fundamental_div_mod(i as int, w);
        vstd::arithmetic::div_mod::lemma_mod_bound(i as int, w);
        vstd::arithmetic::div_mod::lemma_fundamental_div_mod(i as int / w, t);
        vstd::arithmetic::div_mod::lemma_mod_bound(i as int / w, t);
        vstd::arithmetic::div_mod::lemma_div_denominator(i as int, w, t);
        assert(w * t == t * w) by (nonlinear_arith);
        let g = i as int / w / t;
        let k = i as int / w % t;
        assert((g * t + k) * w + i as int % w == i) by (nonlinear_arith)
            requires
                i as int == w * (i as int / w) + i as int % w,
                i as int / w == t * g + k,
        ;
    }
    (i / (total * d), (i / d) % total, i % d)
}

/// The keys that the query at position `p` sees among `total`, in order.
pub fn visible_keys(total: usize, p: usize, window: Option<usize>) -> (keys: Vec<usize>)
    requires
        p < total,
    ensures
        keys@ == Seq::new(
            (p + 1 - first_visible(p as int, window)) as nat,
            |i: int| (first_visible(p as int, window) + i) as usize,
        ),
        forall|k: int|
            0 <= k < total ==> (#[trigger] hidden(p as int, k, window) <==> !keys@.contains(
                k as usize,
            )),
        forall|i: int|
            0 <= i < keys@.len() ==> #[trigger] keys@[i] == p + 1 - keys@.len() + i,
        keys@.len() == (match window {
            Some(w) => if w <= p {
                w as int
            } else {
                p + 1
            },
            None => p + 1,
        }),
{
    let start: usize = match window {
        Some(w) => {
            if w <= p {
                p - w + 1
            } else {
                0
            }
        },
        None => 0,
    };
    let ghost first = first_visible(p as int, window);
    assert(start == first);
    let mut keys: Vec<usize> = Vec::new();
    let mut j: usize = start;
    while j <= p
        invariant
            start <= j <= p + 1,
            p < total,
            start == first,
            first <= p + 1,
            keys@ == Seq::new((j - first) as nat, |i: int| (first + i) as usize),
        decreases p + 1 - j,
    {
        keys.push(j);
        j = j + 1;
        assert(keys@ =~= Seq::new((j - first) as nat, |i: int| (first + i) as usize));
    }
    proof {
        assert forall|k: int| 0 <= k < total implies (#[trigger] hidden(p as int, k, window)
            <==> !keys@.contains(k as usize)) by {
            if first <= k <= p {
                assert(keys@[k - first] == k as usize);
            }
        }
    }
    keys
}

/// The index that comes back at `i` where each workgroup hands its numbers back
/// mirrored, one more than the index; past the end stands 0.
pub fn mirrored(i: usize, n: usize) -> (value: usize)
    requires
        i < n,
        n <= usize::MAX - 256,
    ensures
        value == (if i as int / 256 * 256 + 255 - i as int % 256 < n {
            i as int / 256 * 256 + 255 - i as int % 256
        } else {
            0
        }) + 1,
{
    let base: usize = (i / 256) * 256;
    let at: usize = base + (255 - i % 256);
    if at < n {
        at + 1
    } else {
        1
    }
}

/// The slots that the scalar probe hands in: a small number, one that needs both
/// halves of a slot, another small one, and the bit pattern of 1.5.
pub fn echo_slots() -> (slots: Vec<u64>)
    ensures
        slots@ == seq![1u64, 0xAABB_CCDD_0011_2233, 7, 0x3FC0_0000],
{
    let mut slots: Vec<u64> = Vec::new();
    slots.push(1);
    slots.push(0xAABB_CCDD_0011_2233);
    slots.push(7);
    slots.push(0x3FC0_0000);
    slots
}

/// The words that must come back: both halves of the first slot, the low half of
/// the next two, and the bit pattern of 3.0.
pub open spec fn echo_words() -> Seq<usize> {
    seq![1usize, 0, 0x0011_2233, 7, 0x4040_0000]
}

/// How the complaint of the scalar probe ends.
pub const ECHO_BLAME: &'static str =
    "] — the uniform u64-slot contract does not hold on this backend";

/// What is wrong with the words that the scalar probe brought back, if anything:
/// the first five count, and all are shown.
pub fn echo_fault(words: &Vec<usize>) -> (fault: Option<String>)
    requires
        words@.len() >= 5,
    ensures
        fault is Some == (words@.take(5) != echo_words()),
        fault is None <==> words@[0] == 1 && words@[1] == 0 && words@[2] == 0x0011_2233 && words@[3]
            == 7 && words@[4] == 0x4040_0000,
        fault matches Some(text) ==> text@ == "scalar layout mismatch: got ["@ + listed(words@)
            + "], expected ["@ + listed(echo_words())
            + "] — the uniform u64-slot contract does not hold on this backend"@,
{
    let mut expect: Vec<usize> = Vec::new();
    expect.push(1);
    expect.push(0);
    expect.push(0x0011_2233);
    expect.push(7);
    expect.push(0x4040_0000);
    assert(expect@ =~= echo_words());
    proof {
        let five = words@.take(5);
        assert(five[0] == words@[0] && five[1] == words@[1] && five[2] == words@[2] && five[3]
            == words@[3] && five[4] == words@[4]);
        if five[0] == 1 && five[1] == 0 && five[2] == 0x0011_2233 && five[3] == 7 && five[4]
            == 0x4040_0000 {
            assert(five =~= echo_words());
        }
    }
    let mut first: Vec<usize> = Vec::new();
    let mut i: usize = 0;
    while i < 5
        invariant
            i <= 5,
            words@.len() >= 5,
            first@ == words@.take(i as int),
        decreases 5 - i,
    {
        first.push(words[i]);
        i = i + 1;
        assert(first@ =~= words@.take(i as int));
    }
    if same_list(&first, &expect) {
        return None;
    }
    let mut text: String = "scalar layout mismatch: got [".to_owned();
    text.append(list_text(words).as_str());
    text.append("], expected [");
    text.append(list_text(&expect).as_str());
    text.append(ECHO_BLAME);
    Some(text)
}

/// The first of `n` places at which two results differ in any bit.
pub fn first_difference(a: &Vec<u32>, b: &Vec<u32>, n: usize) -> (at: Option<usize>)
    requires
        n <= a@.len(),
        n <= b@.len(),
    ensures
        at matches Some(i) ==> i < n && a@[i as int] != b@[i as int] && a@.take(i as int)
            == b@.take(i as int),
        at is None ==> a@.take(n as int) == b@.take(n as int),
{
    let mut i: usize = 0;
    while i < n
        invariant
            i <= n,
            n <= a@.len(),
            n <= b@.len(),
            a@.take(i as int) == b@.take(i as int),
        decreases n - i,
    {
        if a[i] != b[i] {
            return Some(i);
        }
        i = i + 1;
        assert(a@.take(i as int) =~= a@.take(i - 1).push(a@[i - 1]));
        assert(b@.take(i as int) =~= b@.take(i - 1).push(b@[i - 1]));
    }
    None
}

/// The formats that have a decode kernel of their own.
#[derive(Debug, Clone, Copy, PartialEq, Eq, Structural)]
pub enum GemvKernel {
    /// Blocks of 32 bytes with one scale.
    Q8,
    /// Superblocks with a scale, a minimum and packed sub-scales.
    Q4K,
    /// Superblocks with signed sub-scales and one scale.
    Q6K,
}

impl GemvKernel {
    /// Bytes of a block.
    pub open spec fn bytes(self) -> int {
        match self {
            GemvKernel::Q8 => 34,
            GemvKernel::Q4K => 144,
            GemvKernel::Q6K => 210,
        }
    }

    /// Byte `o` of a block that is part of a scale: which byte of a scale of 1.0 or,
    /// for the second scale, of 0.25, in half precision.
    pub open spec fn scale_byte(self, o: int) -> Option<u8> {
        match self {
            GemvKernel::Q8 => if o == 0 {
                Some(0x00)
            } else if o == 1 {
                Some(0x3C)
            } else {
                None
            },
            GemvKernel::Q4K => if o == 0 || o == 2 {
                Some(0x00)
            } else if o == 1 {
                Some(0x3C)
            } else if o == 3 {
                Some(0x34)
            } else {
                None
            },
            GemvKernel::Q6K => if o == 208 {
                Some(0x00)
            } else if o == 209 {
                Some(0x3C)
            } else {
                None
            },
        }
    }

    /// Values of a block.
    pub fn block_values(&self) -> (values: usize)
        ensures
            values == (if *self == GemvKernel::Q8 {
                32int
            } else {
                256
            }),
    {
        match self {
            GemvKernel::Q8 => 32,
            GemvKernel::Q4K => 256,
            GemvKernel::Q6K => 256,
        }
    }

    /// Bytes of a block.
    pub fn block_bytes(&self) -> (bytes: usize)
        ensures
            bytes == self.bytes(),
            *self is Q8 ==> bytes == 34,
            *self is Q4K ==> bytes == 144,
            *self is Q6K ==> bytes == 210,
    {
        match self {
            GemvKernel::Q8 => 34,
            GemvKernel::Q4K => 144,
            GemvKernel::Q6K => 210,
        }
    }

    /// The byte of a scale that stands at `o`, if one does.
    fn scale_at(&self, o: usize) -> (byte: Option<u8>)
        ensures
            byte == self.scale_byte(o as int),
    {
        match self {
            GemvKernel::Q8 => if o == 0 {
                Some(0x00)
            } else if o == 1 {
                Some(0x3C)
            } else {
                None
            },
            GemvKernel::Q4K => if o == 0 || o == 2 {
                Some(0x00)
            } else if o == 1 {
                Some(0x3C)
            } else if o == 3 {
                Some(0x34)
            } else {
                None
            },
            GemvKernel::Q6K => if o == 208 {
                Some(0x00)
            } else if o == 209 {
                Some(0x3C)
            } else {
                None
            },
        }
    }
}

/// Byte `i` of the blocks that are fed to a matrix probe: a fixed pattern with
/// plain scales in it.
pub open spec fn synth_byte(kernel: GemvKernel, i: int) -> u8 {
    match kernel.scale_byte(i % kernel.bytes()) {
        Some(byte) => byte,
        None => ((i * 37 + 11) % 251) as u8,
    }
}

/// The blocks that are fed to a matrix probe.
pub fn synth(kernel: GemvKernel, blocks: usize) -> (data: Vec<u8>)
    requires
        blocks * kernel.bytes() <= usize::MAX,
    ensures
        data@ == Seq::new((blocks * kernel.bytes()) as nat, |i: int| synth_byte(kernel, i)),
{
    let bytes: usize = kernel.block_bytes();
    let len: usize = blocks * bytes;
    let mut data: Vec<u8> = Vec::new();
    let mut i: usize = 0;
    while i < len
        invariant
            i <= len,
            bytes == kernel.bytes(),
            bytes > 0,
            data@ == Seq::new(i as nat, |k: int| synth_byte(kernel, k)),
        decreases len - i,
    {
        proof {
            assert((i as int % 251 * 37 + 11) % 251 == (i * 37 + 11) % 251) by {
                let q = i as int / 251;
                let r = i as int % 251;
                assert(i == 251 * q + r);
                assert(i * 37 + 11 == 251 * (q * 37) + (r * 37 + 11));
                vstd::arithmetic::div_mod::lemma_mod_multiples_vanish(q * 37, r * 37 + 11, 251);
            }
        }
        let byte: u8 = match kernel.scale_at(i % bytes) {
            Some(byte) => byte,
            None => ((i % 251 * 37 + 11) % 251) as u8,
        };
        data.push(byte);
        i = i + 1;
        assert(data@ =~= Seq::new(i as nat, |k: int| synth_byte(kernel, k)));
    }
    data
}

/// The lanes that the quantized probe picks from.
pub open spec fn lane(i: int) -> int {
    let pick = i % 8;
    if pick == 0 {
        -127
    } else if pick == 1 {
        -1
    } else if pick == 2 {
        0
    } else if pick == 3 {
        1
    } else if pick == 4 {
        63
    } else if pick == 5 {
        127
    } else if pick == 6 {
        -64
    } else {
        5
    }
}

/// Lane `l` of word `w` in group `grp` of the row of key `j` and head `g`. The
/// first word of all has the largest value in every lane.
pub open spec fn lane_of(j: int, g: int, grp: int, w: int, l: int, salt: int) -> int {
    if j == 0 && g == 0 && grp == 0 && w == 0 {
        127
    } else {
        lane(j * 31 + g * 7 + grp * 5 + w * 3 + l + salt)
    }
}

/// Word `w` in group `grp` of the row of key `j` and head `g`.
pub open spec fn fixture_word(j: int, g: int, grp: int, w: int, salt: int) -> int {
    word_of(
        lane_of(j, g, grp, w, 0, salt),
        lane_of(j, g, grp, w, 1, salt),
        lane_of(j, g, grp, w, 2, salt),
        lane_of(j, g, grp, w, 3, salt),
    )
}

/// The scale of a group, a power of two, as its bit pattern in single precision:
/// 0.5, 0.25, 1.0 and 0.125 in turn.
pub open spec fn scale_bits(i: int) -> u32 {
    let pick = i % 4;
    if pick == 0 {
        0x3F00_0000
    } else if pick == 1 {
        0x3E80_0000
    } else if pick == 2 {
        0x3F80_0000
    } else {
        0x3E00_0000
    }
}

/// Every lane of the quantized probe is a quantized value, and the first word is
/// the largest integer.
pub proof fn law_fixture_lanes(j: int, g: int, grp: int, w: int, salt: int)
    ensures
        forall|l: int| in_lane(#[trigger] lane_of(j, g, grp, w, l, salt)),
        fixture_word(0, 0, 0, 0, salt) == i32::MAX,
        i32::MIN <= fixture_word(j, g, grp, w, salt) <= i32::MAX,
{
    law_words_fit(
        lane_of(j, g, grp, w, 0, salt),
        lane_of(j, g, grp, w, 1, salt),
        lane_of(j, g, grp, w, 2, salt),
        lane_of(j, g, grp, w, 3, salt),
    );
}

/// The lane at `i`, counted round.
fn lane_value(i: usize) -> (value: i32)
    ensures
        value == lane(i as int),
{
    let pick: usize = i % 8;
    if pick == 0 {
        -127
    } else if pick == 1 {
        -1
    } else if pick == 2 {
        0
    } else if pick == 3 {
        1
    } else if pick == 4 {
        63
    } else if pick == 5 {
        127
    } else if pick == 6 {
        -64
    } else {
        5
    }
}

/// Whole rounds of eight do not change which lane is picked.
#[verifier::spinoff_prover]
#[verifier::rlimit(60)]
proof fn lemma_lanes_go_round(j: int, g: int, grp: int, w: int, l: int, salt: int)
    ensures
        (j * 31 + g * 7 + grp * 5 + w * 3 + l + salt) % 8 == ((j % 8) * 31 + (g % 8) * 7 + (grp % 8)
            * 5 + (w % 8) * 3 + l % 8 + salt % 8) % 8,
{
    let rounds = (j / 8) * 31 + (g / 8) * 7 + (grp / 8) * 5 + (w / 8) * 3 + l / 8 + salt / 8;
    let near = (j % 8) * 31 + (g % 8) * 7 + (grp % 8) * 5 + (w % 8) * 3 + l % 8 + salt % 8;
    let far = j * 31 + g * 7 + grp * 5 + w * 3 + l + salt;
    assert(far == 8 * rounds + near);
    vstd::arithmetic::div_mod::lemma_mod_multiples_vanish(rounds, near, 8);
}

/// Lane `l` of word `w` in group `grp` of the row of key `j` and head `g`.
#[verifier::spinoff_prover]
#[verifier::rlimit(60)]
pub fn fixture_lane(j: usize, g: usize, grp: usize, w: usize, l: usize, salt: usize) -> (value: i32)
    ensures
        value == lane_of(j as int, g as int, grp as int, w as int, l as int, salt as int),
{
    if j == 0 && g == 0 && grp == 0 && w == 0 {
        return 127;
    }
    let near: usize = (j % 8) * 31 + (g % 8) * 7 + (grp % 8) * 5 + (w % 8) * 3 + l % 8 + salt % 8;
    proof {
        lemma_lanes_go_round(j as int, g as int, grp as int, w as int, l as int, salt as int);
    }
    lane_value(near)
}

/// Word `k` of a row: nothing, or the row of key number `x`.
pub open spec fn row_word(row: Option<usize>, total: int, k: int, salt: int) -> int {
    match row {
        None => 0,
        Some(x) => fixture_word(x as int % total, x as int / total, k / 8, k % 8, salt),
    }
}

/// Scale `k` of a row: nothing, or the row of key number `x`.
pub open spec fn row_scale(row: Option<usize>, total: int, k: int, salt: int) -> u32 {
    match row {
        None => 0,
        Some(x) => scale_bits(x as int % total + x as int / total + k + salt),
    }
}

/// The packed words of the quantized probe, `d / 4` to a row of the arena.
pub fn fixture_words(rows: &Vec<Option<usize>>, total: usize, d: usize, salt: usize) -> (words: Vec<
    i32,
>)
    requires
        total > 0,
        d >= 4,
        rows@.len() * (d as int / 4) <= usize::MAX,
    ensures
        words@ == Seq::new(
            (rows@.len() * (d as int / 4)) as nat,
            |i: int|
                row_word(rows@[i / (d as int / 4)], total as int, i % (d as int / 4), salt as int)
                    as i32,
        ),
{
    let width: usize = d / 4;
    let len: usize = rows.len() * width;
    let mut words: Vec<i32> = Vec::new();
    let mut i: usize = 0;
    while i < len
        invariant
            i <= len,
            total > 0,
            width == d as int / 4,
            width > 0,
            len == rows@.len() * width,
            words@ == Seq::new(
                i as nat,
                |i: int|
                    row_word(rows@[i / width as int], total as int, i % width as int, salt as int)
                        as i32,
            ),
        decreases len - i,
    {
        proof {
            vstd::arithmetic::div_mod::lemma_multiply_divide_lt(
                i as int,
                width as int,
                rows@.len() as int,
            );
        }
        let k: usize = i % width;
        let word: i32 = match rows[i / width] {
            None => 0,
            Some(x) => {
                let (j, g): (usize, usize) = (x % total, x / total);
                let (grp, w): (usize, usize) = (k / 8, k % 8);
                proof {
                    law_fixture_lanes(j as int, g as int, grp as int, w as int, salt as int);
                }
                pack_word(
                    fixture_lane(j, g, grp, w, 0, salt),
                    fixture_lane(j, g, grp, w, 1, salt),
                    fixture_lane(j, g, grp, w, 2, salt),
                    fixture_lane(j, g, grp, w, 3, salt),
                )
            },
        };
        words.push(word);
        i = i + 1;
        assert(words@ =~= Seq::new(
            i as nat,
            |i: int|
                row_word(rows@[i / width as int], total as int, i % width as int, salt as int)
                    as i32,
        ));
    }
    words
}

/// The scale at `i`, counted round.
fn scale_value(i: usize) -> (bits: u32)
    ensures
        bits == scale_bits(i as int),
{
    let pick: usize = i % 4;
    if pick == 0 {
        0x3F00_0000
    } else if pick == 1 {
        0x3E80_0000
    } else if pick == 2 {
        0x3F80_0000
    } else {
        0x3E00_0000
    }
}

/// The scales of the quantized probe as bit patterns, `d / 32` to a row of the
/// arena.
pub fn fixture_scales(
    rows: &Vec<Option<usize>>,
    total: usize,
    d: usize,
    salt: usize,
) -> (scales: Vec<u32>)
    requires
        total > 0,
        d >= 32,
        rows@.len() * (d as int / 32) <= usize::MAX,
    ensures
        scales@ == Seq::new(
            (rows@.len() * (d as int / 32)) as nat,
            |i: int|
                row_scale(rows@[i / (d as int / 32)], total as int, i % (d as int / 32), salt as int),
        ),
{
    let width: usize = d / 32;
    let len: usize = rows.len() * width;
    let mut scales: Vec<u32> = Vec::new();
    let mut i: usize = 0;
    while i < len
        invariant
            i <= len,
            total > 0,
            width == d as int / 32,
            width > 0,
            len == rows@.len() * width,
            scales@ == Seq::new(
                i as nat,
                |i: int|
                    row_scale(rows@[i / width as int], total as int, i % width as int, salt as int),
            ),
        decreases len - i,
    {
        proof {
            vstd::arithmetic::div_mod::lemma_multiply_divide_lt(
                i as int,
                width as int,
                rows@.len() as int,
            );
        }
        let k: usize = i % width;
        let bits: u32 = match rows[i / width] {
            None => 0,
            Some(x) => {
                let (j, g): (usize, usize) = (x % total, x / total);
                let near: usize = j % 4 + g % 4 + k % 4 + salt % 4;
                proof {
                    let far = j + g + k + salt;
                    let rounds = j as int / 4 + g as int / 4 + k as int / 4 + salt as int / 4;
                    assert(far == 4 * rounds + near);
                    assert(far % 4 == near as int % 4);
                }
                scale_value(near)
            },
        };
        scales.push(bits);
        i = i + 1;
        assert(scales@ =~= Seq::new(
            i as nat,
            |i: int|
                row_scale(rows@[i / width as int], total as int, i % width as int, salt as int),
        ));
    }
    scales
}

/// Unpacking a word of the quantized probe gives the lanes that went into it.
pub proof fn law_fixture_unpacks(j: int, g: int, grp: int, w: int, salt: int)
    ensures
        lanes_of(fixture_word(j, g, grp, w, salt)) == (
            lane_of(j, g, grp, w, 0, salt),
            lane_of(j, g, grp, w, 1, salt),
            lane_of(j, g, grp, w, 2, salt),
            lane_of(j, g, grp, w, 3, salt),
        ),
{
    law_fixture_lanes(j, g, grp, w, salt);
    law_lanes_round_trip(
        lane_of(j, g, grp, w, 0, salt),
        lane_of(j, g, grp, w, 1, salt),
        lane_of(j, g, grp, w, 2, salt),
        lane_of(j, g, grp, w, 3, salt),
    );
}

/// A rotated table counts on from page to page, and starts over behind the last.
pub proof fn law_rotation_counts_on(pages: nat, num_pages: usize, shift: usize, p: int)
    requires
        0 < num_pages <= i32::MAX,
        0 <= p < pages,
    ensures
        rotated(pages, num_pages, shift).len() == pages,
        shift < num_pages ==> rotated(pages, num_pages, shift)[0] == shift,
        p + 1 < pages ==> {
            let (here, next) = (
                rotated(pages, num_pages, shift)[p],
                rotated(pages, num_pages, shift)[p + 1],
            );
            next == (if here + 1 < num_pages {
                here + 1
            } else {
                0
            })
        },
{
    let n = num_pages as int;
    vstd::arithmetic::div_mod::lemma_mod_bound(p + shift, n);
    vstd::arithmetic::div_mod::lemma_mod_bound(p + 1 + shift, n);
    if shift < num_pages {
        vstd::arithmetic::div_mod::lemma_small_mod(shift as nat, n as nat);
    }
    let (q, r) = ((p + shift) / n, (p + shift) % n);
    vstd::arithmetic::div_mod::lemma_fundamental_div_mod(p + shift, n);
    assert(n * q == q * n) by (nonlinear_arith);
    if r + 1 < n {
        vstd::arithmetic::div_mod::lemma_fundamental_div_mod_converse(
            p + 1 + shift,
            n,
            q,
            r + 1,
        );
    } else {
        assert((q + 1) * n == q * n + n) by (nonlinear_arith);
        vstd::arithmetic::div_mod::lemma_fundamental_div_mod_converse(p + 1 + shift, n, q + 1, 0);
    }
}

/// Key `slot` of logical page `q` lies in the page that the table gives it, behind
/// the rows of the heads before its own.
pub proof fn law_arena_rows_go_by_page(
    table: Seq<i32>,
    n_kv: int,
    page_size: int,
    g: int,
    q: int,
    slot: int,
)
    requires
        0 <= q,
        0 <= slot < page_size,
    ensures
        arena_row(table, n_kv, page_size, g, q * page_size + slot) == table[q] * (n_kv * page_size)
            + g * page_size + slot,
{
    vstd::arithmetic::div_mod::lemma_fundamental_div_mod_converse(
        q * page_size + slot,
        page_size,
        q,
        slot,
    );
    let t = table[q] as int;
    assert((t * n_kv + g) * page_size == t * (n_kv * page_size) + g * page_size)
        by (nonlinear_arith);
}

/// The bytes that are fed to a matrix probe: in each block the scale is 1.0, the
/// second scale of a Q4_K block is 0.25, and all other bytes follow one pattern
/// through the whole stream.
pub proof fn law_probe_bytes(kernel: GemvKernel, i: int)
    requires
        0 <= i,
    ensures
        ({
            let byte = synth_byte(kernel, i);
            match kernel {
                GemvKernel::Q8 => {
                    &&& i % 34 == 0 ==> byte == 0x00
                    &&& i % 34 == 1 ==> byte == 0x3C
                    &&& i % 34 >= 2 ==> byte == (i * 37 + 11) % 251
                },
                GemvKernel::Q4K => {
                    &&& i % 144 == 0 || i % 144 == 2 ==> byte == 0x00
                    &&& i % 144 == 1 ==> byte == 0x3C
                    &&& i % 144 == 3 ==> byte == 0x34
                    &&& i % 144 >= 4 ==> byte == (i * 37 + 11) % 251
                },
                GemvKernel::Q6K => {
                    &&& i % 210 == 208 ==> byte == 0x00
                    &&& i % 210 == 209 ==> byte == 0x3C
                    &&& i % 210 < 208 ==> byte == (i * 37 + 11) % 251
                },
            }
        }),
{
}

/// The lanes of the quantized probe go round the same eight values, and its scales
/// round 0.5, 0.25, 1.0 and 0.125; only the first word of all is 127 throughout.
pub proof fn law_probe_lanes(j: int, g: int, grp: int, w: int, l: int, salt: int, round: int)
    ensures
        lane(8 * round) == -127,
        lane(8 * round + 1) == -1,
        lane(8 * round + 2) == 0,
        lane(8 * round + 3) == 1,
        lane(8 * round + 4) == 63,
        lane(8 * round + 5) == 127,
        lane(8 * round + 6) == -64,
        lane(8 * round + 7) == 5,
        scale_bits(4 * round) == 0x3F00_0000,
        scale_bits(4 * round + 1) == 0x3E80_0000,
        scale_bits(4 * round + 2) == 0x3F80_0000,
        scale_bits(4 * round + 3) == 0x3E00_0000,
        lane_of(0, 0, 0, 0, l, salt) == 127,
        j != 0 || g != 0 || grp != 0 || w != 0 ==> lane_of(j, g, grp, w, l, salt) == lane(
            31 * j + 7 * g + 5 * grp + 3 * w + l + salt,
        ),
        fixture_word(j, g, grp, w, salt) == (lane_of(j, g, grp, w, 0, salt) + 128) + 256 * (lane_of(
            j,
            g,
            grp,
            w,
            1,
            salt,
        ) + 128) + 65536 * (lane_of(j, g, grp, w, 2, salt) + 128) + 16777216 * lane_of(
            j,
            g,
            grp,
            w,
            3,
            salt,
        ),
{
}

/// A row of the arena that holds key `j` of head `g` has the words and scales of
/// that key, eight words and one scale to a group; one that holds none has zeros.
pub proof fn law_probe_rows(total: int, g: int, j: int, grp: int, w: int, salt: int)
    requires
        0 <= j < total,
        0 <= g,
        0 <= grp,
        0 <= w < 8,
        g * total + j <= usize::MAX,
    ensures
        row_word(None, total, 8 * grp + w, salt) == 0,
        row_word(Some((g * total + j) as usize), total, 8 * grp + w, salt) == fixture_word(
            j,
            g,
            grp,
            w,
            salt,
        ),
        row_scale(None, total, grp, salt) == 0,
        row_scale(Some((g * total + j) as usize), total, grp, salt) == scale_bits(
            j + g + grp + salt,
        ),
{
    assert(0 <= g * total) by (nonlinear_arith)
        requires
            0 <= g,
            0 <= total,
    ;
    vstd::arithmetic::div_mod::lemma_fundamental_div_mod_converse(g * total + j, total, g, j);
    assert((8 * grp + w) / 8 == grp && (8 * grp + w) % 8 == w);
}

} // verus!
