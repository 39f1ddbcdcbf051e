//! Which keys a query sees.
//!
//! Positions are counted from the first row of the window that is read. A
//! query sees the keys up to its own position and, within a sliding window of
//! `w`, only the last `w` of those.

use vstd::prelude::*;

use crate::arith::{least, most};
use crate::text::same_text;

verus! {

/// Key `k` is hidden from the query at position `q`: it lies ahead, or too far
/// behind for the window.
pub open spec fn hidden(q: int, k: int, window: Option<usize>) -> bool {
    k > q || (window matches Some(w) && k + w - 1 < q)
}

/// First key that the query at position `q` sees.
pub open spec fn first_visible(q: int, window: Option<usize>) -> int {
    match window {
        Some(w) => most(0, q - w + 1),
        None => 0,
    }
}

/// The rows that the query at position `q` sees, in order.
pub open spec fn visible_rows<V>(rows: Seq<V>, q: int, window: Option<usize>) -> Seq<V> {
    rows.subrange(first_visible(q, window), q + 1)
}

/// Whether key `k` is hidden from the query at position `q`.
pub fn forbidden(q: usize, k: usize, window: Option<usize>) -> (hide: bool)
    ensures
        hide == hidden(q as int, k as int, window),
        window is None ==> (hide <==> q < k),
        window matches Some(w) ==> (hide <==> q < k || q - k >= w),
{
    if k > q {
        return true;
    }
    match window {
        Some(w) => w <= q - k,
        None => false,
    }
}

/// Whether a chunk of `seq` queries needs a mask at all: a single query without
/// a window sees everything cached.
pub fn needs_mask(seq: usize, window: Option<usize>) -> (mask: bool)
    ensures
        mask == (seq > 1 || window is Some),
{
    seq > 1 || window.is_some()
}

/// The mask of `seq` queries from position `pos` over `total` keys, row by row:
/// `true` where the key is hidden.
pub fn attention_mask(pos: usize, seq: usize, total: usize, window: Option<usize>) -> (mask: Vec<
    bool,
>)
    requires
        pos + seq <= usize::MAX,
        seq * total <= usize::MAX,
    ensures
        mask@.len() == seq * total,
        forall|i: int, k: int|
            0 <= i < seq && 0 <= k < total ==> mask@[i * total + k] == #[trigger] hidden(
                pos + i,
                k,
                window,
            ),
        window is None ==> forall|i: int, k: int|
            0 <= i < seq && 0 <= k < total ==> #[trigger] mask@[i * total + k] == !(k <= pos + i),
        window matches Some(w) ==> forall|i: int, k: int|
            0 <= i < seq && 0 <= k < total ==> #[trigger] mask@[i * total + k] == !(pos + i - w < k
                && k <= pos + i),
{
    let mut mask: Vec<bool> = Vec::new();
    let mut i: usize = 0;
    while i < seq
        invariant
            i <= seq,
            pos + seq <= usize::MAX,
            seq * total <= usize::MAX,
            mask@.len() == i * total,
            forall|j: int, k: int|
                0 <= j < i && 0 <= k < total ==> mask@[j * total + k] == #[trigger] hidden(
                    pos + j,
                    k,
                    window,
                ),
        decreases seq - i,
    {
        let mut k: usize = 0;
        while k < total
            invariant
                i < seq,
                k <= total,
                pos + seq <= usize::MAX,
                mask@.len() == i * total + k,
                forall|j: int, c: int|
                    0 <= j < i && 0 <= c < total ==> mask@[j * total + c] == #[trigger] hidden(
                        pos + j,
                        c,
                        window,
                    ),
                forall|c: int|
                    0 <= c < k ==> mask@[i * total + c] == #[trigger] hidden(
                        (pos + i) as int,
                        c,
                        window,
                    ),
            decreases total - k,
        {
            let ghost before = mask@;
            mask.push(forbidden(pos + i, k, window));
            proof {
                assert forall|j: int, c: int| 0 <= j < i && 0 <= c < total implies mask@[j * total
                    + c] == #[trigger] hidden(pos + j, c, window) by {
                    assert(0 <= j * total + c < i * total) by (nonlinear_arith)
                        requires
                            0 <= j < i,
                            0 <= c < total,
                    ;
                    assert(mask@[j * total + c] == before[j * total + c]);
                }
            }
            k = k + 1;
        }
        i = i + 1;
        assert((i - 1) * total + total == i * total) by (nonlinear_arith);
    }
    assert forall|i: int, k: int| 0 <= i < seq && 0 <= k < total implies #[trigger] mask@[i * total
        + k] == hidden(pos + i, k, window) by {}
    mask
}

/// What the variable that selects the attention path says: the fused kernel is
/// preferred unless it reads `manual`.
pub fn flash_enabled(setting: Option<&str>) -> (enabled: bool)
    ensures
        enabled == (setting matches Some(v) ==> v@ != "manual"@),
{
    match setting {
        Some(v) => !same_text(v, "manual"),
        None => true,
    }
}

/// Whether the fused kernel may compute this attention: it is preferred, there
/// is no window, and the scale is the default one.
pub fn takes_flash(enabled: bool, window: Option<usize>, default_scale: bool) -> (take: bool)
    ensures
        take == (enabled && window is None && default_scale),
{
    enabled && window.is_none() && default_scale
}

/// The key-value head that serves query head `head`, when `n_q` query heads
/// share `n_kv` key-value heads: each one is repeated for consecutive queries.
pub fn shared_head(head: usize, n_q: usize, n_kv: usize) -> (kv_head: usize)
    requires
        n_kv > 0,
        n_q >= n_kv,
        n_q % n_kv == 0,
        head < n_q,
    ensures
        kv_head == head as int / (n_q as int / n_kv as int),
        kv_head < n_kv,
        kv_head * n_q <= head * n_kv < (kv_head + 1) * n_q,
{
    let repeat: usize = n_q / n_kv;
    proof {
        let r = repeat as int;
        vstd::arithmetic::div_mod::lemma_fundamental_div_mod(n_q as int, n_kv as int);
        assert(r >= 1) by (nonlinear_arith)
            requires
                n_q == n_kv * r,
                n_q >= n_kv,
                n_kv > 0,
        ;
        vstd::arithmetic::div_mod::lemma_fundamental_div_mod(head as int, r);
        vstd::arithmetic::div_mod::lemma_mod_bound(head as int, r);
        assert((head as int / r) < n_kv) by (nonlinear_arith)
            requires
                head == r * (head as int / r) + head as int % r,
                head as int % r >= 0,
                head < n_kv * r,
                r >= 1,
        ;
        let q = head as int / r;
        assert(q * n_q <= head * n_kv && head * n_kv < (q + 1) * n_q) by (nonlinear_arith)
            requires
                n_q == n_kv * r,
                head == r * q + head as int % r,
                0 <= head as int % r < r,
                n_kv > 0,
        ;
    }
    head / repeat
}

/// A single query at the end of the window sees every key, so that the step
/// without a mask is the masked one.
pub proof fn law_last_query_sees_all(total: int, k: int)
    requires
        0 <= k < total,
    ensures
        !hidden(total - 1, k, None),
{
}

/// Masking that is aligned to the bottom right corner, as the fused kernel has
/// it, hides the same keys as masking by positions when the queries are the
/// last ones of the window.
pub proof fn law_bottom_right_is_positional(pos: int, seq: int, i: int, k: int)
    requires
        pos >= 0,
        0 <= i < seq,
        0 <= k < pos + seq,
    ensures
        hidden(pos + i, k, None) == (k > i + ((pos + seq) - seq)),
{
}

/// The keys that are not hidden are exactly the visible rows.
pub proof fn law_visible_rows_are_unhidden<V>(rows: Seq<V>, q: int, window: Option<usize>, k: int)
    requires
        0 <= q < rows.len(),
        0 <= k < rows.len(),
        window matches Some(w) ==> w >= 1,
    ensures
        !hidden(q, k, window) <==> first_visible(q, window) <= k <= q,
        !hidden(q, k, window) ==> visible_rows(rows, q, window)[k - first_visible(q, window)]
            == rows[k],
{
}

/// A sliding layer that stores the trailing `w - 1` rows of its history, or
/// more, lets each query of a new chunk see exactly what a layer sees that
/// keeps everything and hides by the window alone.
pub proof fn law_sliding_matches_masked_global<V>(
    history: Seq<V>,
    stored: int,
    chunk: Seq<V>,
    w: usize,
    i: int,
)
    requires
        w >= 1,
        0 <= stored <= history.len(),
        stored >= least(history.len() as int, w - 1),
        0 <= i < chunk.len(),
    ensures
        visible_rows(history.skip(history.len() - stored) + chunk, stored + i, Some(w))
            == visible_rows(history + chunk, history.len() + i, Some(w)),
{
    let rolled = history.skip(history.len() - stored) + chunk;
    let full = history + chunk;
    assert(visible_rows(rolled, stored + i, Some(w)) =~= visible_rows(
        full,
        history.len() + i,
        Some(w),
    ));
}

/// Keeping the trailing `w - 1` rows of store and chunk is keeping the trailing
/// rows of the whole history: what was evicted is never seen again.
pub proof fn law_store_is_a_suffix<V>(history: Seq<V>, stored: int, chunk: Seq<V>, w: usize)
    requires
        w >= 2,
        stored == least(history.len() as int, w - 1),
    ensures
        ({
            let joined = history.skip(history.len() - stored) + chunk;
            let keep = least(joined.len() as int, w - 1);
            let whole = history + chunk;
            &&& keep == least(whole.len() as int, w - 1)
            &&& joined.skip(joined.len() - keep) == whole.skip(whole.len() - keep)
        }),
{
    let joined = history.skip(history.len() - stored) + chunk;
    let keep = least(joined.len() as int, w - 1);
    let whole = history + chunk;
    assert(joined.skip(joined.len() - keep) =~= whole.skip(whole.len() - keep));
}

/// As long as nothing has been evicted, cutting the store by `n` rows gives the
/// store of the history without its last `n` rows.
pub proof fn law_store_rolls_back<V>(history: Seq<V>, n: int, w: usize)
    requires
        w >= 2,
        history.len() <= w - 1,
        0 <= n <= history.len(),
    ensures
        history.skip(history.len() - least(history.len() as int, w - 1)).take(history.len() - n)
            == history.take(history.len() - n).skip(
            (history.len() - n) - least(history.len() - n, w - 1),
        ),
{
    assert(history.skip(history.len() - least(history.len() as int, w - 1)).take(
        history.len() - n,
    ) =~= history.take(history.len() - n).skip(
        (history.len() - n) - least(history.len() - n, w - 1),
    ));
}

/// How many of the first `upto` keys the query at position `q` sees.
pub open spec fn seen_among(q: int, window: Option<usize>, upto: int) -> int
    decreases upto,
{
    if upto <= 0 {
        0
    } else {
        seen_among(q, window, upto - 1) + if hidden(q, upto - 1, window) {
            0int
        } else {
            1int
        }
    }
}

/// What is seen of the first keys: those that lie behind the start of the window.
proof fn lemma_seen_among(q: int, window: Option<usize>, upto: int)
    requires
        0 <= upto <= q + 1,
    ensures
        seen_among(q, window, upto) == match window {
            None => upto,
            Some(w) => if upto <= q + 1 - w {
                0
            } else if q + 1 - w <= 0 {
                upto
            } else {
                upto - (q + 1 - w)
            },
        },
    decreases upto,
{
    if upto > 0 {
        lemma_seen_among(q, window, upto - 1);
    }
}

/// A query sees its own position and all before it, or as many of them as its
/// window is wide; it sees none ahead.
pub proof fn law_query_sees_its_window(q: int, window: Option<usize>, ahead: int)
    requires
        q >= 0,
        ahead >= 0,
    ensures
        window is None ==> seen_among(q, window, q + 1) == q + 1,
        window matches Some(w) && w <= q + 1 ==> seen_among(q, window, q + 1) == window->0,
        window matches Some(w) && w > q + 1 ==> seen_among(q, window, q + 1) == q + 1,
        seen_among(q, window, q + 1 + ahead) == seen_among(q, window, q + 1),
    decreases ahead,
{
    lemma_seen_among(q, window, q + 1);
    if ahead > 0 {
        law_query_sees_its_window(q, window, ahead - 1);
    }
}

/// Only the distance counts: moving query and key on together changes nothing.
/// What is seen lies less than a window behind, and a wider window never hides
/// what a narrower one shows.
pub proof fn law_masking_goes_by_distance(q: int, k: int, by: int, w: usize, wider: usize)
    requires
        w <= wider,
    ensures
        hidden(q + by, k + by, Some(w)) == hidden(q, k, Some(w)),
        hidden(q + by, k + by, None) == hidden(q, k, None),
        !hidden(q, k, Some(w)) <==> 0 <= q - k < w,
        !hidden(q, k, None) <==> 0 <= q - k,
        !hidden(q, k, Some(w)) ==> !hidden(q, k, Some(wider)),
        !hidden(q, k, Some(w)) ==> !hidden(q, k, None),
{
}

/// The rows that a query sees end with its own, and are as many as the window is
/// wide, or all there are.
pub proof fn law_visible_rows_are_the_last<V>(rows: Seq<V>, q: int, window: Option<usize>)
    requires
        0 <= q < rows.len(),
        window matches Some(w) ==> w >= 1,
    ensures
        visible_rows(rows, q, window).last() == rows[q],
        window is None ==> visible_rows(rows, q, window) == rows.take(q + 1),
        window matches Some(w) && w > q ==> visible_rows(rows, q, window) == rows.take(q + 1),
        window matches Some(w) && w <= q ==> visible_rows(rows, q, window) == rows.take(q + 1).skip(
            q + 1 - window->0,
        ),
{
    if window matches Some(w) && w <= q {
        assert(visible_rows(rows, q, window) =~= rows.take(q + 1).skip(q + 1 - window->0));
    } else {
        assert(visible_rows(rows, q, window) =~= rows.take(q + 1));
    }
}

} // verus!
