//! What holds of every paged cache: the invariant is kept by each operation,
//! and what is read back is what was appended.

use vstd::prelude::*;

use crate::arith::{
    ceil_div, least, lemma_block_of, lemma_ceil_div, lemma_ceil_div_monotonic, most,
};
use crate::config::CacheConfig;
use crate::paged::{
    count_some, paged_step, sliding_step, snapshot, ArenaStep, AttentionStep, PageStats,
};
use crate::paged_state::{
    ascending, distinct_below, page_write, page_writes, pages_touched, popped, run_end, run_start,
    ArenaSpan, PageWrite, PagedState,
};
use crate::pages::descending;

verus! {

/// A sequence that lists entries of another, none twice, is as distinct as it.
proof fn lemma_reindexed(a: Seq<usize>, b: Seq<usize>, at: spec_fn(int) -> int, bound: int)
    requires
        distinct_below(a, bound),
        forall|i: int|
            0 <= i < b.len() ==> 0 <= #[trigger] at(i) < a.len() && b[i] == a[at(i)],
        forall|i: int, j: int|
            0 <= i < j < b.len() ==> #[trigger] at(i) != #[trigger] at(j),
    ensures
        distinct_below(b, bound),
{
    assert forall|i: int| 0 <= i < b.len() implies (#[trigger] b[i]) < bound by {
        assert(b[i] == a[at(i)]);
    }
    assert forall|i: int, j: int| 0 <= i < j < b.len() implies (#[trigger] b[i]) != (
    #[trigger] b[j]) by {
        assert(b[i] == a[at(i)] && b[j] == a[at(j)] && at(i) != at(j));
    }
}

/// A fresh cache is healthy.
pub proof fn law_fresh_is_healthy(config: CacheConfig, windows: Seq<Option<usize>>)
    requires
        config.page_size > 0,
        forall|l: int| 0 <= l < windows.len() ==> (#[trigger] windows[l] matches Some(w) ==> w >= 2),
    ensures
        PagedState::fresh(config, windows).healthy(),
{
    let s = PagedState::fresh(config, windows);
    lemma_ceil_div(config.max_seq_len as int, config.page_size as int);
    lemma_ceil_div(0, config.page_size as int);
    assert(s.table + s.free =~= s.free);
    assert forall|l: int| 0 <= l < s.windows.len() implies #[trigger] s.layer_healthy(l) by {
        assert forall|p: int| 0 <= p && p * s.config.page_size < s.filled[l] implies #[trigger] s.page_resident(l, p) by {
            assert(p * s.config.page_size >= 0) by (nonlinear_arith)
                requires
                    p >= 0,
                    s.config.page_size > 0,
            ;
        }
    }
}

/// The ids of the table and the free stack stay a rearrangement of
/// `0..materialized` when the table grows.
pub proof fn lemma_ensure_distinct(s: PagedState, total: int)
    requires
        s.healthy(),
        s.covers(total),
    ensures
        s.after_ensure(total).table.len() + s.after_ensure(total).free.len()
            == s.after_ensure(total).materialized,
        distinct_below(
            s.after_ensure(total).table + s.after_ensure(total).free,
            s.after_ensure(total).materialized,
        ),
        s.materialized <= s.after_ensure(total).materialized <= s.capacity(),
        s.after_ensure(total).table.len() == most(s.table.len() as int, s.pages_for(total)),
        s.after_ensure(total).table.take(s.table.len() as int) == s.table,
{
    let ps = s.config.page_size as int;
    let needed = s.pages_for(total);
    let t = s.after_ensure(total);
    let have = s.table.len() as int;
    let idle = s.free.len() as int;
    let a = s.table + s.free;
    let b = t.table + t.free;
    lemma_ceil_div(total, ps);
    lemma_ceil_div(s.config.max_seq_len as int, ps);
    let missing = needed - have;
    if missing <= 0 {
        assert(t.table.take(have) =~= s.table);
    } else if missing <= idle {
        assert(t.table.take(have) =~= s.table);
        let at = |i: int|
            if i < have {
                i
            } else if i < have + missing {
                have + idle - 1 - (i - have)
            } else {
                i - missing
            };
        assert forall|i: int| 0 <= i < b.len() implies 0 <= #[trigger] at(i) < a.len() && b[i]
            == a[at(i)] by {
            if i < have {
            } else if i < have + missing {
                assert(b[i] == popped(s.free, missing)[i - have]);
            } else {
                assert(b[i] == t.free[i - have - missing]);
            }
        }
        lemma_reindexed(a, b, at, s.materialized);
    } else {
        let m = s.materialized;
        let grown = s.grown_for(needed);
        assert(m < needed <= grown);
        assert(t.table.take(have) =~= s.table);
        let first = s.table + popped(s.free, idle);
        let at = |i: int|
            if i < have {
                i
            } else {
                have + idle - 1 - (i - have)
            };
        assert forall|i: int| 0 <= i < first.len() implies 0 <= #[trigger] at(i) < a.len()
            && first[i] == a[at(i)] by {
            if i >= have {
                assert(first[i] == popped(s.free, idle)[i - have]);
            }
        }
        lemma_reindexed(a, first, at, m);
        assert forall|i: int| 0 <= i < b.len() implies (#[trigger] b[i]) == (if i < m {
            first[i] as int
        } else if i < needed {
            i
        } else {
            grown - 1 - (i - needed)
        }) by {
            if i < m {
                assert(b[i] == first[i]);
            } else if i < needed {
                assert(b[i] == ascending(m, needed)[i - m]);
            } else {
                assert(b[i] == descending(needed, grown)[i - needed]);
            }
        }
        assert(distinct_below(b, grown)) by {
            assert forall|i: int, j: int| 0 <= i < j < b.len() implies (#[trigger] b[i]) != (
            #[trigger] b[j]) by {
                if j < m {
                    assert(first[i] != first[j]);
                } else if i < m {
                    assert(first[i] < m);
                }
            }
            assert forall|i: int| 0 <= i < b.len() implies (#[trigger] b[i]) < grown by {
                if i < m {
                    assert(first[i] < m);
                }
            }
        }
    }
}

/// A layer stays healthy when the table is extended, the arenas to come grow
/// and the sequence gets longer.
proof fn lemma_layer_extends(s: PagedState, t: PagedState, l: int)
    requires
        s.healthy(),
        0 <= l < s.windows.len(),
        t.config == s.config,
        t.windows == s.windows,
        t.arenas[l] == s.arenas[l],
        t.sliding[l] == s.sliding[l],
        t.filled[l] == s.filled[l],
        s.seq_len <= t.seq_len,
        s.materialized <= t.materialized,
        s.table.len() <= t.table.len(),
        t.table.take(s.table.len() as int) == s.table,
    ensures
        t.layer_healthy(l),
{
    assert(s.layer_healthy(l));
    if s.windows[l] is None {
        assert forall|p: int| 0 <= p && p * t.config.page_size < t.filled[l] implies #[trigger] t.page_resident(l, p) by {
            assert(s.page_resident(l, p));
            assert(t.table[p] == t.table.take(s.table.len() as int)[p]);
        }
    }
}

/// Covering more positions keeps the cache healthy.
pub proof fn law_ensure_keeps_health(s: PagedState, total: int)
    requires
        s.healthy(),
        s.covers(total),
    ensures
        s.after_ensure(total).healthy(),
{
    let t = s.after_ensure(total);
    lemma_ensure_distinct(s, total);
    assert forall|l: int| 0 <= l < t.windows.len() implies #[trigger] t.layer_healthy(l) by {
        lemma_layer_extends(s, t, l);
    }
}

/// Advancing the sequence keeps the cache healthy.
pub proof fn lemma_advance_keeps_health(s: PagedState, layer: int, seq: int, pos: int)
    requires
        s.healthy(),
        s.accepts(layer, seq, pos),
    ensures
        s.advanced(layer, seq, pos).healthy(),
        s.advanced(layer, seq, pos).seq_len == pos + seq,
        s.advanced(layer, seq, pos).covers(pos + seq),
{
    let t = s.advanced(layer, seq, pos);
    lemma_ceil_div_monotonic(
        pos + seq,
        s.config.max_seq_len as int,
        s.config.page_size as int,
    );
    assert(t.table.take(s.table.len() as int) =~= s.table);
    assert forall|l: int| 0 <= l < t.windows.len() implies #[trigger] t.layer_healthy(l) by {
        lemma_layer_extends(s, t, l);
    }
}

/// An append to a sliding layer keeps the cache healthy.
pub proof fn law_slide_keeps_health(s: PagedState, layer: int, seq: int, pos: int, w: usize)
    requires
        s.healthy(),
        s.accepts(layer, seq, pos),
        s.windows[layer] == Some(w),
    ensures
        s.after_slide(layer, seq, pos, w as int).healthy(),
{
    let a = s.advanced(layer, seq, pos);
    let t = s.after_slide(layer, seq, pos, w as int);
    lemma_advance_keeps_health(s, layer, seq, pos);
    assert(s.layer_healthy(layer));
    assert(t.table.take(a.table.len() as int) =~= a.table);
    assert forall|l: int| 0 <= l < t.windows.len() implies #[trigger] t.layer_healthy(l) by {
        assert(a.layer_healthy(l));
        if l != layer {
            lemma_layer_extends(a, t, l);
        }
    }
}

/// An append to a global layer keeps the cache healthy.
pub proof fn law_paged_keeps_health(s: PagedState, layer: int, seq: int, pos: int, head_dim: int)
    requires
        s.healthy(),
        s.accepts(layer, seq, pos),
        s.windows[layer] is None,
    ensures
        s.after_paged(layer, seq, pos, head_dim).healthy(),
{
    let a = s.advanced(layer, seq, pos);
    let e = a.after_ensure(pos + seq);
    let t = s.after_paged(layer, seq, pos, head_dim);
    let ps = s.config.page_size as int;
    lemma_advance_keeps_health(s, layer, seq, pos);
    law_ensure_keeps_health(a, pos + seq);
    lemma_ensure_distinct(a, pos + seq);
    lemma_ceil_div(s.config.max_seq_len as int, ps);
    assert(t.table.take(e.table.len() as int) =~= e.table);
    assert forall|l: int| 0 <= l < t.windows.len() implies #[trigger] t.layer_healthy(l) by {
        assert(e.layer_healthy(l));
        if l != layer {
            lemma_layer_extends(e, t, l);
        } else {
            assert forall|p: int| 0 <= p && p * t.config.page_size < t.filled[l] implies #[trigger] t.page_resident(l, p) by {
                let q = p * ps;
                assert(q / ps == p) by {
                    vstd::arithmetic::div_mod::lemma_div_multiples_vanish(p, ps);
                    assert(p * ps == ps * p) by (nonlinear_arith);
                }
                assert(q >= 0) by (nonlinear_arith)
                    requires
                        p >= 0,
                        ps > 0,
                        q == p * ps,
                ;
                lemma_block_of(q, pos + seq, ps);
                assert(p < e.table.len());
                assert((e.table + e.free)[p] < e.materialized);
            }
        }
    }
}

/// A rollback keeps the cache healthy.
pub proof fn law_popn_keeps_health(s: PagedState, n: int)
    requires
        s.healthy(),
        n >= 0,
    ensures
        s.after_popn(n).healthy(),
        s.after_popn(n).seq_len == s.seq_len - s.dropped_by(n),
{
    let t = s.after_popn(n);
    let dropped = s.dropped_by(n);
    if dropped != 0 {
        let ps = s.config.page_size as int;
        let len = s.seq_len - dropped;
        let have = s.table.len() as int;
        let idle = s.free.len() as int;
        let keep = least(have, s.pages_for(len));
        lemma_ceil_div(len, ps);
        let a = s.table + s.free;
        let b = t.table + t.free;
        let at = |i: int|
            if i < keep {
                i
            } else if i < keep + idle {
                i - keep + have
            } else {
                have - 1 - (i - keep - idle)
            };
        assert forall|i: int| 0 <= i < b.len() implies 0 <= #[trigger] at(i) < a.len() && b[i]
            == a[at(i)] by {
            if i < keep {
            } else if i < keep + idle {
                assert(b[i] == s.free[i - keep]);
            } else {
                assert(b[i] == popped(s.table, have - keep)[i - keep - idle]);
            }
        }
        lemma_reindexed(a, b, at, s.materialized);
        assert forall|l: int| 0 <= l < t.windows.len() implies #[trigger] t.layer_healthy(l) by {
            assert(s.layer_healthy(l));
            assert forall|p: int| 0 <= p && p * t.config.page_size < t.filled[l] implies #[trigger] t.page_resident(l, p) by {
                assert(s.page_resident(l, p));
                let q = p * ps;
                assert(q / ps == p) by {
                    vstd::arithmetic::div_mod::lemma_div_multiples_vanish(p, ps);
                    assert(p * ps == ps * p) by (nonlinear_arith);
                }
                assert(q >= 0) by (nonlinear_arith)
                    requires
                        p >= 0,
                        ps > 0,
                        q == p * ps,
                ;
                lemma_block_of(q, len, ps);
            }
        }
        if keep == have {
            assert(t.table =~= s.table);
        }
    }
}

/// A reset keeps the cache healthy.
pub proof fn law_reset_keeps_health(s: PagedState)
    requires
        s.healthy(),
    ensures
        s.after_reset().healthy(),
{
    let t = s.after_reset();
    lemma_ceil_div(s.config.max_seq_len as int, s.config.page_size as int);
    lemma_ceil_div(0, s.config.page_size as int);
    assert(t.table + t.free =~= t.free);
    assert forall|l: int| 0 <= l < t.windows.len() implies #[trigger] t.layer_healthy(l) by {
        assert(s.layer_healthy(l));
        assert forall|p: int| 0 <= p && p * t.config.page_size < t.filled[l] implies #[trigger] t.page_resident(l, p) by {
            assert(p * t.config.page_size >= 0) by (nonlinear_arith)
                requires
                    p >= 0,
                    t.config.page_size > 0,
            ;
        }
    }
}

/// Pages in use and pages available add up to the capacity.
pub proof fn law_pages_balance(s: PagedState)
    requires
        s.healthy(),
    ensures
        s.table.len() + s.pages_free() == s.capacity(),
{
}

/// Covering `total` positions takes no page more than they need: the arenas to
/// come keep their size while free ids last, and otherwise grow once, at least
/// to what is needed and at most to the capacity.
pub proof fn law_growth_is_bounded(s: PagedState, total: int)
    requires
        s.healthy(),
        s.covers(total),
    ensures
        s.after_ensure(total).table.len() == most(s.table.len() as int, s.pages_for(total)),
        s.pages_for(total) <= s.materialized ==> s.after_ensure(total).materialized
            == s.materialized,
        s.pages_for(total) > s.materialized ==> s.after_ensure(total).materialized == s.grown_for(
            s.pages_for(total),
        ),
        s.after_ensure(total).materialized <= s.capacity(),
{
    lemma_ensure_distinct(s, total);
}

/// After a reset the cache is as fresh, but for the page count and the arenas
/// that it keeps.
pub proof fn law_reset_is_fresh(s: PagedState)
    requires
        s.healthy(),
    ensures
        s.after_reset() == (PagedState {
            free: descending(0, s.materialized),
            materialized: s.materialized,
            arenas: s.arenas,
            ..PagedState::fresh(s.config, s.windows)
        }),
{
    assert(s.after_reset() =~= (PagedState {
        free: descending(0, s.materialized),
        materialized: s.materialized,
        arenas: s.arenas,
        ..PagedState::fresh(s.config, s.windows)
    }));
}

/// The rows of one layer's arena: what each slot of each page holds.
pub type Rows<V> = spec_fn(int, int) -> V;

/// The first `count` positions as they are read through the page table.
pub open spec fn window_rows<V>(
    arena: Rows<V>,
    table: Seq<usize>,
    page_size: int,
    count: int,
) -> Seq<V> {
    Seq::new(count as nat, |p: int| arena(table[p / page_size] as int, p % page_size))
}

/// The arena once one write has placed its rows.
pub open spec fn place<V>(arena: Rows<V>, write: PageWrite, rows: Seq<V>) -> Rows<V> {
    |page: int, slot: int|
        if page == write.page && write.slot <= slot < write.slot + write.run {
            rows[write.from + slot - write.slot]
        } else {
            arena(page, slot)
        }
}

/// The arena once all writes have placed their rows.
pub open spec fn place_all<V>(arena: Rows<V>, writes: Seq<PageWrite>, rows: Seq<V>) -> Rows<V>
    decreases writes.len(),
{
    if writes.len() == 0 {
        arena
    } else {
        place(place_all(arena, writes.drop_last(), rows), writes.last(), rows)
    }
}

/// The slot that holds position `p` is written by the write of its page and by
/// no other.
proof fn lemma_placed<V>(
    arena: Rows<V>,
    table: Seq<usize>,
    page_size: int,
    pos: int,
    seq: int,
    rows: Seq<V>,
    count: int,
    p: int,
)
    requires
        page_size > 0,
        page_size <= usize::MAX,
        pos >= 0,
        seq >= 0,
        pos + seq <= usize::MAX,
        rows.len() == seq,
        ceil_div(pos + seq, page_size) <= table.len(),
        forall|i: int, j: int| 0 <= i < j < table.len() ==> #[trigger] table[i] != #[trigger] table[j],
        0 <= count <= pages_touched(page_size, pos, seq),
        0 <= p < pos + seq,
    ensures
        place_all(arena, page_writes(table, page_size, pos, seq).take(count), rows)(
            table[p / page_size] as int,
            p % page_size,
        ) == (if pos <= p && p / page_size < pos / page_size + count {
            rows[p - pos]
        } else {
            arena(table[p / page_size] as int, p % page_size)
        }),
    decreases count,
{
    let all = page_writes(table, page_size, pos, seq);
    let done = all.take(count);
    lemma_block_of(p, pos + seq, page_size);
    if pos <= p {
        vstd::arithmetic::div_mod::lemma_div_is_ordered(pos, p, page_size);
    }
    if count > 0 {
        let logical = pos / page_size + count - 1;
        let w = page_write(table, page_size, pos, seq, logical);
        lemma_placed(arena, table, page_size, pos, seq, rows, count - 1, p);
        assert(done.drop_last() =~= all.take(count - 1));
        assert(done.last() == w);
        let start = run_start(page_size, pos, logical);
        let end = run_end(page_size, pos, seq, logical);
        lemma_block_of(pos, pos + seq, page_size);
        lemma_ceil_div(pos + seq, page_size);
        assert(logical * page_size + page_size > pos) by (nonlinear_arith)
            requires
                logical >= pos / page_size,
                pos == (pos / page_size) * page_size + pos % page_size,
                pos % page_size < page_size,
                page_size > 0,
        ;
        assert(logical * page_size < pos + seq) by (nonlinear_arith)
            requires
                logical <= ceil_div(pos + seq, page_size) - 1,
                (ceil_div(pos + seq, page_size) - 1) * page_size < pos + seq,
                page_size > 0,
        ;
        assert(logical * page_size >= 0) by (nonlinear_arith)
            requires
                logical >= 0,
                page_size > 0,
        ;
        assert(start < end);
        if p / page_size == logical {
            assert(p == logical * page_size + p % page_size);
        } else if p / page_size < logical {
            assert(table[p / page_size] != table[logical]);
        } else {
            assert(table[logical] != table[p / page_size]);
        }
    }
}

/// Appending `rows` at position `pos` through the page writes, then reading
/// `pos + rows.len()` positions back through the table, gives what was there
/// before, followed by `rows`.
pub proof fn law_append_reads_back<V>(
    arena: Rows<V>,
    table: Seq<usize>,
    page_size: int,
    pos: int,
    rows: Seq<V>,
)
    requires
        0 < page_size <= usize::MAX,
        pos >= 0,
        pos + rows.len() <= usize::MAX,
        ceil_div(pos + rows.len(), page_size) <= table.len(),
        forall|i: int, j: int| 0 <= i < j < table.len() ==> #[trigger] table[i] != #[trigger] table[j],
    ensures
        window_rows(
            place_all(arena, page_writes(table, page_size, pos, rows.len() as int), rows),
            table,
            page_size,
            pos + rows.len(),
        ) == window_rows(arena, table, page_size, pos) + rows,
{
    let seq = rows.len() as int;
    let writes = page_writes(table, page_size, pos, seq);
    let after = place_all(arena, writes, rows);
    let got = window_rows(after, table, page_size, pos + seq);
    let want = window_rows(arena, table, page_size, pos) + rows;
    lemma_ceil_div(pos + seq, page_size);
    if seq > 0 {
        lemma_block_of(pos, pos + seq, page_size);
    }
    assert forall|p: int| 0 <= p < pos + seq implies #[trigger] got[p] == want[p] by {
        lemma_placed(arena, table, page_size, pos, seq, rows, writes.len() as int, p);
        assert(writes.take(writes.len() as int) =~= writes);
        lemma_block_of(p, pos + seq, page_size);
    }
    assert(got =~= want);
}

/// One append to a global layer of a healthy cache, as a whole: reading the
/// layer back through the new table gives the rows that it held before,
/// followed by the new ones. Growth on the way moves nothing: every page that
/// holds an earlier position lies inside the arena as it was.
pub proof fn law_cache_appends<V>(
    s: PagedState,
    layer: int,
    pos: int,
    head_dim: int,
    arena: Rows<V>,
    rows: Seq<V>,
)
    requires
        s.healthy(),
        s.accepts(layer, rows.len() as int, pos),
        s.windows[layer] is None,
        s.filled[layer] == pos,
    ensures
        ({
            let ps = s.config.page_size as int;
            let t = s.after_paged(layer, rows.len() as int, pos, head_dim);
            &&& window_rows(
                place_all(arena, page_writes(t.table, ps, pos, rows.len() as int), rows),
                t.table,
                ps,
                t.filled[layer],
            ) == window_rows(arena, s.table, ps, s.filled[layer]) + rows
            &&& forall|p: int|
                0 <= p < pos ==> s.page_resident(layer, #[trigger] (p / ps))
        }),
{
    let ps = s.config.page_size as int;
    let seq = rows.len() as int;
    let a = s.advanced(layer, seq, pos);
    let t = s.after_paged(layer, seq, pos, head_dim);
    lemma_advance_keeps_health(s, layer, seq, pos);
    lemma_ensure_distinct(a, pos + seq);
    assert(s.layer_healthy(layer));
    assert forall|i: int, j: int| 0 <= i < j < t.table.len() implies #[trigger] t.table[i]
        != #[trigger] t.table[j] by {
        assert((t.table + t.free)[i] != (t.table + t.free)[j]);
    }
    law_append_reads_back(arena, t.table, ps, pos, rows);
    assert forall|p: int| 0 <= p < pos implies s.page_resident(layer, #[trigger] (p / ps)) by {
        lemma_block_of(p, pos, ps);
    }
    assert(window_rows(arena, t.table, ps, pos) =~= window_rows(arena, s.table, ps, pos)) by {
        assert forall|p: int| 0 <= p < pos implies t.table[#[trigger] (p / ps)] == s.table[p
            / ps] by {
            assert(s.page_resident(layer, p / ps));
            lemma_block_of(p, pos, ps);
            assert(t.table.take(s.table.len() as int)[p / ps] == t.table[p / ps]);
        }
    }
}

/// Neither page size nor growth shows in what is read: two caches that read the
/// same before an append read the same after it.
pub proof fn law_layout_never_shows<V>(
    s: PagedState,
    t: PagedState,
    layer: int,
    pos: int,
    head_dim: int,
    s_arena: Rows<V>,
    t_arena: Rows<V>,
    rows: Seq<V>,
)
    requires
        s.healthy(),
        t.healthy(),
        s.accepts(layer, rows.len() as int, pos),
        t.accepts(layer, rows.len() as int, pos),
        s.windows[layer] is None,
        t.windows[layer] is None,
        s.filled[layer] == pos,
        t.filled[layer] == pos,
        window_rows(s_arena, s.table, s.config.page_size as int, pos) == window_rows(
            t_arena,
            t.table,
            t.config.page_size as int,
            pos,
        ),
    ensures
        ({
            let sp = s.config.page_size as int;
            let tp = t.config.page_size as int;
            let s1 = s.after_paged(layer, rows.len() as int, pos, head_dim);
            let t1 = t.after_paged(layer, rows.len() as int, pos, head_dim);
            window_rows(
                place_all(s_arena, page_writes(s1.table, sp, pos, rows.len() as int), rows),
                s1.table,
                sp,
                pos + rows.len(),
            ) == window_rows(
                place_all(t_arena, page_writes(t1.table, tp, pos, rows.len() as int), rows),
                t1.table,
                tp,
                pos + rows.len(),
            )
        }),
{
    law_cache_appends(s, layer, pos, head_dim, s_arena, rows);
    law_cache_appends(t, layer, pos, head_dim, t_arena, rows);
}

/// After a rollback a layer reads as it did, without the tokens dropped: the
/// state that appending the shorter history would have given.
pub proof fn law_rollback_reads_prefix<V>(s: PagedState, n: int, layer: int, arena: Rows<V>)
    requires
        s.healthy(),
        n >= 0,
        0 <= layer < s.windows.len(),
        s.windows[layer] is None,
    ensures
        window_rows(
            arena,
            s.after_popn(n).table,
            s.config.page_size as int,
            s.after_popn(n).filled[layer],
        ) == window_rows(arena, s.table, s.config.page_size as int, s.filled[layer]).take(
            least(s.filled[layer], s.after_popn(n).seq_len),
        ),
{
    let ps = s.config.page_size as int;
    let t = s.after_popn(n);
    law_popn_keeps_health(s, n);
    assert(s.layer_healthy(layer));
    assert(t.layer_healthy(layer));
    let kept = t.filled[layer];
    assert(kept == least(s.filled[layer], t.seq_len));
    assert forall|p: int| 0 <= p < kept implies t.table[#[trigger] (p / ps)] == s.table[p / ps] by {
        lemma_block_of(p, kept, ps);
        vstd::arithmetic::div_mod::lemma_fundamental_div_mod(p, ps);
        assert((p / ps) * ps <= p) by (nonlinear_arith)
            requires
                p == ps * (p / ps) + p % ps,
                p % ps >= 0,
        ;
        assert(t.page_resident(layer, p / ps));
    }
    assert(window_rows(arena, t.table, ps, kept) =~= window_rows(arena, s.table, ps, s.filled[layer]).take(kept));
}

/// A rollback drops all of what it was asked for that is cached, or, once a
/// sliding layer may have evicted rows, nothing at all and changes nothing.
pub proof fn law_rollback_is_all_or_nothing(s: PagedState, n: int)
    requires
        s.healthy(),
        n >= 0,
    ensures
        s.dropped_by(n) == least(n, s.seq_len) || (s.dropped_by(n) == 0 && s.evicted()),
        s.dropped_by(n) == 0 ==> s.after_popn(n) == s,
{
}

/// A freed page is the next one handed out: covering the same positions again
/// after a rollback restores the table.
pub proof fn law_regrowth_reuses_freed_pages(s: PagedState, n: int, total: int)
    requires
        s.healthy(),
        n >= 0,
        s.covers(total),
        s.table.len() == s.pages_for(total),
    ensures
        s.after_popn(n).after_ensure(total).table == s.table,
        s.after_popn(n).after_ensure(total).free == s.free,
        s.after_popn(n).after_ensure(total).materialized == s.materialized,
{
    let t = s.after_popn(n);
    let u = t.after_ensure(total);
    law_popn_keeps_health(s, n);
    assert(u.table =~= s.table);
    assert(u.free =~= s.free);
}

/// A sliding layer of window `w` reads what it stores and the chunk behind it, and
/// then keeps the trailing rows that a later query may still see: at most `w - 1`.
/// It touches nothing else but the length of the sequence.
pub proof fn law_sliding_step_goes_by_window(
    s: PagedState,
    layer: int,
    seq: int,
    pos: int,
    w: usize,
)
    requires
        s.healthy(),
        s.accepts(layer, seq, pos),
        s.windows[layer] == Some(w),
    ensures
        ({
            let t = s.after_slide(layer, seq, pos, w as int);
            let past = match s.sliding[layer] {
                Some(rows) => rows as int,
                None => 0,
            };
            &&& match sliding_step(s, layer, seq, w) {
                AttentionStep::Sliding { window, stored, full_len, query_start, keep, in_place } => {
                    &&& window == w
                    &&& stored == s.sliding[layer]
                    &&& query_start == past
                    &&& full_len == past + seq
                    &&& past + seq < w ==> keep == past + seq
                    &&& past + seq >= w ==> keep == w - 1
                    &&& in_place <==> seq == 1
                    &&& t.sliding[layer] == Some(keep)
                },
                AttentionStep::Paged { .. } => false,
            }
            &&& t.sliding.len() == s.sliding.len()
            &&& forall|l: int|
                0 <= l < s.sliding.len() && l != layer ==> #[trigger] t.sliding[l] == s.sliding[l]
            &&& t.seq_len == pos + seq
            &&& t.table == s.table && t.free == s.free && t.materialized == s.materialized
            &&& t.arenas == s.arenas && t.filled == s.filled && t.windows == s.windows
            &&& t.dirty == s.dirty && t.mirror == s.mirror && t.config == s.config
        }),
{
    assert(s.layer_healthy(layer));
}

/// A sliding layer that has taken every chunk so far holds exactly the rows that a
/// window of `w` reaches back to from the next position, and goes on to do so. So
/// the first query of a chunk finds the row of every position `k` that it may see.
pub proof fn law_sliding_store_is_whole(
    s: PagedState,
    layer: int,
    seq: int,
    pos: int,
    w: usize,
    k: int,
)
    requires
        s.healthy(),
        s.accepts(layer, seq, pos),
        s.windows[layer] == Some(w),
        s.stored(layer) == (if pos < w {
            pos
        } else {
            w - 1
        }),
    ensures
        s.after_slide(layer, seq, pos, w as int).stored(layer) == (if pos + seq < w {
            pos + seq
        } else {
            w - 1
        }),
        match sliding_step(s, layer, seq, w) {
            AttentionStep::Sliding { query_start, .. } => 0 <= k < pos && pos - k < w ==> pos
                - query_start <= k,
            AttentionStep::Paged { .. } => false,
        },
{
    assert(s.layer_healthy(layer));
}

/// A rollback leaves a sliding layer that held all rows of its window with all rows
/// of its window: none that the rollback brings back into reach is missing.
pub proof fn law_rollback_keeps_sliding_stores_whole(s: PagedState, n: int, layer: int, w: usize)
    requires
        s.healthy(),
        n >= 0,
        0 <= layer < s.windows.len(),
        s.windows[layer] == Some(w),
        s.stored(layer) == (if s.seq_len < w {
            s.seq_len
        } else {
            w - 1
        }),
    ensures
        ({
            let t = s.after_popn(n);
            t.stored(layer) == (if t.seq_len < w {
                t.seq_len
            } else {
                w - 1
            })
        }),
{
    assert(s.layer_healthy(layer));
    if s.evicted() {
    } else {
        assert(!(s.windows[layer] matches Some(w) && s.seq_len > w - 1));
    }
}

/// A rollback is refused only where a sliding layer has dropped rows: one whose
/// window is shorter than the sequence and the next token. Else the tokens asked
/// for are dropped, as far as there are any, and with them the pages that no token
/// is left on; a rolling store loses as many rows, and is gone with its last.
pub proof fn law_rollback_goes_by_windows(s: PagedState, n: int)
    requires
        s.healthy(),
        n >= 0,
    ensures
        ({
            let t = s.after_popn(n);
            let full = exists|l: int|
                0 <= l < s.windows.len() && (#[trigger] s.windows[l] matches Some(w) && w
                    <= s.seq_len);
            &&& full ==> s.dropped_by(n) == 0
            &&& !full && n <= s.seq_len ==> s.dropped_by(n) == n
            &&& !full && n > s.seq_len ==> s.dropped_by(n) == s.seq_len
            &&& t.seq_len == s.seq_len - s.dropped_by(n)
            &&& t.table.is_prefix_of(s.table)
            &&& s.dropped_by(n) > 0 && t.table.len() > 0 ==> (t.table.len() - 1)
                * s.config.page_size < t.seq_len
            &&& t.seq_len <= s.table.len() * s.config.page_size ==> t.seq_len <= t.table.len()
                * s.config.page_size
            &&& t.table.len() + t.free.len() == s.table.len() + s.free.len()
            &&& forall|l: int|
                0 <= l < s.sliding.len() && s.dropped_by(n) > 0 ==> #[trigger] t.sliding[l]
                    == match s.sliding[l] {
                    Some(rows) => if rows > s.dropped_by(n) {
                        Some((rows - s.dropped_by(n)) as usize)
                    } else {
                        None
                    },
                    None => None,
                }
            &&& t.windows == s.windows && t.arenas == s.arenas && t.materialized == s.materialized
        }),
{
    let t = s.after_popn(n);
    let full = exists|l: int|
        0 <= l < s.windows.len() && (#[trigger] s.windows[l] matches Some(w) && w <= s.seq_len);
    if full {
        let l = choose|l: int|
            0 <= l < s.windows.len() && (#[trigger] s.windows[l] matches Some(w) && w
                <= s.seq_len);
        assert(s.windows[l] matches Some(w) && s.seq_len > w - 1);
        assert(s.evicted());
    }
    if s.evicted() {
        let l = choose|l: int|
            0 <= l < s.windows.len() && (#[trigger] s.windows[l] matches Some(w) && s.seq_len > w
                - 1);
        assert(s.windows[l] matches Some(w) && w <= s.seq_len);
        assert(full);
    }
    if s.dropped_by(n) > 0 {
        let (len, ps) = (t.seq_len, s.config.page_size as int);
        lemma_ceil_div(len, ps);
        let keep = t.table.len() as int;
        if keep > 0 {
            assert((keep - 1) * ps <= (ceil_div(len, ps) - 1) * ps) by (nonlinear_arith)
                requires
                    keep <= ceil_div(len, ps),
                    ps > 0,
            ;
            assert((ceil_div(len, ps) - 1) * ps == ceil_div(len, ps) * ps - ps)
                by (nonlinear_arith);
        }
    }
}

/// What a global layer does with a chunk: it reads all positions up to the end of
/// the chunk, on the fewest pages that hold them. A layer's first touch decides
/// whether its rows are stored as packed 8-bit values, four to a word, with a scale
/// for each 32; later touches enlarge the arena when pages were added.
#[verifier::spinoff_prover]
#[verifier::rlimit(60)]
pub proof fn law_paged_step_reads_all_positions(
    s: PagedState,
    layer: int,
    seq: int,
    head_dim: int,
    pos: int,
    window: Option<usize>,
    step: AttentionStep,
)
    requires
        s.healthy(),
        s.accepts(layer, seq, pos),
        s.windows[layer] is None,
        0 <= head_dim <= usize::MAX,
        paged_step(s, layer, seq, head_dim, pos, window, step),
    ensures
        ({
            let t = s.after_paged(layer, seq, pos, head_dim);
            let packs = match s.arenas[layer] {
                Some(span) => span.quantized,
                None => s.config.quantize_kv && head_dim % 32 == 0,
            };
            &&& step matches AttentionStep::Paged {
                arena,
                quantized,
                writes,
                pages,
                total,
                in_place,
            }
            &&& total == pos + seq
            &&& pages * s.config.page_size >= total
            &&& (pages - 1) * s.config.page_size < total
            &&& in_place <==> seq == 1 && window is None
            &&& quantized == packs
            &&& t.arenas[layer] matches Some(span) && span.quantized == packs && span.pages
                == t.materialized
            &&& s.arenas[layer] is None ==> match arena {
                ArenaStep::Allocate { pages, columns, scale_columns } => {
                    &&& pages == t.materialized
                    &&& packs ==> 4 * columns == head_dim && 32 * scale_columns == head_dim
                    &&& !packs ==> columns == head_dim && scale_columns == 0
                },
                _ => false,
            }
            &&& s.arenas[layer] matches Some(span) ==> {
                &&& span.pages == t.materialized ==> arena is Keep
                &&& span.pages < t.materialized ==> arena == (ArenaStep::Grow {
                    from: span.pages,
                    to: t.materialized as usize,
                })
            }
            &&& t.table.len() >= pages
            &&& t.seq_len == pos + seq
        }),
{
    let ps = s.config.page_size as int;
    lemma_ceil_div(pos + seq, ps);
    assert(s.layer_healthy(layer));
    law_paged_keeps_health(s, layer, seq, pos, head_dim);
    lemma_advance_keeps_health(s, layer, seq, pos);
    lemma_ensure_distinct(s.advanced(layer, seq, pos), pos + seq);
    lemma_ceil_div(s.config.max_seq_len as int, ps);
    if pos + seq == 0 {
        assert(ceil_div(0, ps) == 0);
        assert((0 - 1) * ps < 0) by (nonlinear_arith)
            requires
                ps > 0,
        ;
    }
}

/// A fresh cache holds nothing, and its arenas are to start with at most 32 pages,
/// and with no more than the configuration asks for.
pub proof fn law_fresh_cache_is_small(config: CacheConfig, windows: Seq<Option<usize>>)
    requires
        config.page_size > 0,
    ensures
        ({
            let s = PagedState::fresh(config, windows);
            &&& s.seq_len == 0 && s.table.len() == 0 && s.mirror is None
            &&& s.config == config && s.windows == windows
            &&& s.free.len() == s.materialized
            &&& s.materialized <= 32
            &&& s.materialized < 32 ==> s.materialized * config.page_size >= config.max_seq_len
            &&& s.materialized > 0 ==> (s.materialized - 1) * config.page_size
                < config.max_seq_len
            &&& s.arenas.len() == windows.len() && s.sliding.len() == windows.len()
            &&& forall|l: int|
                0 <= l < windows.len() ==> #[trigger] s.arenas[l] is None && s.sliding[l] is None
        }),
{
    let s = PagedState::fresh(config, windows);
    let (max, ps) = (config.max_seq_len as int, config.page_size as int);
    lemma_ceil_div(max, ps);
    if s.materialized > 0 {
        assert((s.materialized - 1) * ps <= (ceil_div(max, ps) - 1) * ps) by (nonlinear_arith)
            requires
                s.materialized <= ceil_div(max, ps),
                ps > 0,
        ;
        assert((ceil_div(max, ps) - 1) * ps == ceil_div(max, ps) * ps - ps) by (nonlinear_arith);
    }
}

/// After a reset nothing is cached and every page is free; the arenas stay.
pub proof fn law_reset_frees_everything(s: PagedState)
    requires
        s.healthy(),
    ensures
        ({
            let t = s.after_reset();
            &&& t.seq_len == 0 && t.table.len() == 0 && t.mirror is None
            &&& t.free.len() == s.materialized && t.materialized == s.materialized
            &&& t.arenas == s.arenas && t.windows == s.windows && t.config == s.config
            &&& forall|l: int| 0 <= l < s.windows.len() ==> #[trigger] t.sliding[l] is None
        }),
{
}

/// Filled slots are counted one by one.
proof fn lemma_count_some<T>(slots: Seq<Option<T>>)
    ensures
        count_some(slots) == slots.filter(|slot: Option<T>| slot is Some).len(),
    decreases slots.len(),
{
    reveal(Seq::filter);
    if slots.len() > 0 {
        lemma_count_some(slots.drop_last());
    }
}

/// A snapshot shows the state: the pages of the table, those still to be had, the
/// capacity, the size of the arenas to come, and how many layers have an arena or a
/// rolling store.
pub proof fn law_snapshot_shows_the_state(stats: PageStats, s: PagedState)
    requires
        s.healthy(),
        snapshot(stats, s),
    ensures
        stats.pages_used == s.table.len(),
        stats.pages_used + stats.pages_free == stats.num_pages,
        stats.num_pages * s.config.page_size >= s.config.max_seq_len,
        (stats.num_pages - 1) * s.config.page_size < s.config.max_seq_len,
        stats.pages_materialized == s.table.len() + s.free.len(),
        stats.page_size == s.config.page_size,
        stats.seq_len == s.seq_len,
        stats.layers_total == s.windows.len(),
        stats.layers_materialized == s.arenas.filter(|slot: Option<ArenaSpan>| slot is Some).len(),
        stats.layers_sliding == s.sliding.filter(|slot: Option<usize>| slot is Some).len(),
{
    let (max, ps) = (s.config.max_seq_len as int, s.config.page_size as int);
    lemma_ceil_div(max, ps);
    lemma_count_some(s.arenas);
    lemma_count_some(s.sliding);
    if max == 0 {
        assert(ceil_div(0, ps) == 0);
        assert((0 - 1) * ps < 0) by (nonlinear_arith)
            requires
                ps > 0,
        ;
    }
}

} // verus!
