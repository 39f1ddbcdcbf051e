//! The paged cache: a page table over fixed-size pages, a free-page allocator
//! and, for sliding layers, the length of a rolling store.
//!
//! [`PagedKVCache`] decides; it moves no rows itself. Each append returns an
//! [`AttentionStep`] that says which arena to allocate or enlarge, where the
//! new rows go and which window to read.

use vstd::prelude::*;

use crate::arith::{ceil_div, div_ceil, least, lemma_block_of, lemma_ceil_div, min_usize, most};
use crate::config::CacheConfig;
use crate::paged_laws::{
    law_ensure_keeps_health, law_fresh_is_healthy, law_paged_keeps_health, law_popn_keeps_health,
    law_reset_keeps_health, law_slide_keeps_health, lemma_advance_keeps_health,
    lemma_ensure_distinct,
};
use crate::paged_state::{
    page_write, page_writes, pages_touched, popped, run_start, ArenaSpan, PageWrite, PagedState,
    INITIAL_ARENA_PAGES, KV_QUANT_GROUP,
};
use crate::pages::{descending, PageAllocator};

verus! {

/// A paged cache's page-table state at a point in time.
#[derive(Debug, Clone, Copy, PartialEq, Eq, Structural)]
pub struct PageStats {
    /// Pages that hold live entries.
    pub pages_used: usize,
    /// Pages still available: free ids, and capacity not yet materialized.
    pub pages_free: usize,
    /// Total page capacity.
    pub num_pages: usize,
    /// Pages that every touched arena is sized to on its next touch.
    pub pages_materialized: usize,
    /// Tokens per page.
    pub page_size: usize,
    /// Cached positions.
    pub seq_len: usize,
    /// Layers whose arena is allocated.
    pub layers_materialized: usize,
    /// Layers in this cache.
    pub layers_total: usize,
    /// Layers that hold a rolling store.
    pub layers_sliding: usize,
}

/// What to do with a layer's arena before writing to it.
#[derive(Debug, Clone, Copy, PartialEq, Eq, Structural)]
pub enum ArenaStep {
    /// Allocate `pages` zeroed pages of `columns` values (and `scale_columns`
    /// group scales) per row.
    Allocate {
        /// Pages to allocate.
        pages: usize,
        /// Stored values per row.
        columns: usize,
        /// Group scales per row; none for a plain arena.
        scale_columns: usize,
    },
    /// Enlarge from `from` to `to` pages: copy the old pages to the front, zero
    /// the rest.
    Grow {
        /// Pages that the arena has.
        from: usize,
        /// Pages that it must have.
        to: usize,
    },
    /// The arena is large enough.
    Keep,
}

/// How one layer takes a chunk of new rows and which window it then reads.
#[derive(Debug)]
pub enum AttentionStep {
    /// A sliding layer joins its store and the chunk, attends over all of it
    /// with the queries starting at `query_start`, and keeps the trailing
    /// `keep` rows.
    Sliding {
        /// Window of the layer.
        window: usize,
        /// Rows of the store that come before the chunk, if it has a store.
        stored: Option<usize>,
        /// Rows of store and chunk together.
        full_len: usize,
        /// Index of the first query among them.
        query_start: usize,
        /// Trailing rows to keep.
        keep: usize,
        /// Try the single-step kernel over the rows in place first.
        in_place: bool,
    },
    /// A global layer writes to its pages and reads the first `total` positions
    /// of the first `pages` table entries.
    Paged {
        /// What to do with the arena first.
        arena: ArenaStep,
        /// Rows are stored quantized.
        quantized: bool,
        /// Where the rows go.
        writes: Vec<PageWrite>,
        /// Table entries to read.
        pages: usize,
        /// Positions to read.
        total: usize,
        /// Try the single-step kernel over the pages in place first.
        in_place: bool,
    },
}

/// What a global layer does with its arena.
pub open spec fn arena_step(
    span: Option<ArenaSpan>,
    pages: int,
    quantized: bool,
    head_dim: int,
) -> ArenaStep {
    match span {
        None => ArenaStep::Allocate {
            pages: pages as usize,
            columns: (if quantized {
                head_dim / 4
            } else {
                head_dim
            }) as usize,
            scale_columns: (if quantized {
                head_dim / (KV_QUANT_GROUP as int)
            } else {
                0
            }) as usize,
        },
        Some(span) => if span.pages < pages {
            ArenaStep::Grow { from: span.pages, to: pages as usize }
        } else {
            ArenaStep::Keep
        },
    }
}

/// Number of slots that are filled.
pub open spec fn count_some<T>(slots: Seq<Option<T>>) -> nat
    decreases slots.len(),
{
    if slots.len() == 0 {
        0
    } else {
        count_some(slots.drop_last()) + if slots.last() is Some {
            1nat
        } else {
            0nat
        }
    }
}

/// `stats` is the state of the page table.
pub open spec fn snapshot(stats: PageStats, state: PagedState) -> bool {
    &&& stats.pages_used == state.table.len()
    &&& stats.pages_free == state.pages_free()
    &&& stats.num_pages == state.capacity()
    &&& stats.pages_materialized == state.materialized
    &&& stats.page_size == state.config.page_size
    &&& stats.seq_len == state.seq_len
    &&& stats.layers_materialized == count_some(state.arenas)
    &&& stats.layers_total == state.arenas.len()
    &&& stats.layers_sliding == count_some(state.sliding)
}

/// Counts the filled slots.
fn count_filled<T>(slots: &Vec<Option<T>>) -> (count: usize)
    ensures
        count == count_some(slots@),
{
    let mut count: usize = 0;
    let mut i: usize = 0;
    while i < slots.len()
        invariant
            i <= slots.len(),
            count <= i,
            count == count_some(slots@.take(i as int)),
        decreases slots.len() - i,
    {
        assert(slots@.take(i + 1).drop_last() =~= slots@.take(i as int));
        if slots[i].is_some() {
            count = count + 1;
        }
        i = i + 1;
    }
    assert(slots@.take(i as int) =~= slots@);
    count
}

/// A paged cache of one sequence.
pub struct PagedKVCache {
    config: CacheConfig,
    allocator: PageAllocator,
    materialized_pages: usize,
    table: Vec<usize>,
    seq_len: usize,
    arenas: Vec<Option<ArenaSpan>>,
    layer_windows: Vec<Option<usize>>,
    sliding: Vec<Option<usize>>,
    table_resident: bool,
    table_dirty: bool,
    filled: Ghost<Seq<int>>,
    mirror: Ghost<Seq<usize>>,
}

impl View for PagedKVCache {
    type V = PagedState;

    closed spec fn view(&self) -> PagedState {
        PagedState {
            config: self.config,
            free: self.allocator@,
            materialized: self.materialized_pages as int,
            table: self.table@,
            seq_len: self.seq_len as int,
            arenas: self.arenas@,
            windows: self.layer_windows@,
            sliding: self.sliding@,
            filled: self.filled@,
            dirty: self.table_dirty,
            mirror: if self.table_resident {
                Some(self.mirror@)
            } else {
                None
            },
        }
    }
}

impl PagedKVCache {
    /// An empty cache of `num_layers` global layers.
    pub fn new(num_layers: usize, config: CacheConfig) -> (cache: Self)
        requires
            config.page_size > 0,
        ensures
            cache@ == PagedState::fresh(
                config,
                Seq::new(num_layers as nat, |l: int| None::<usize>),
            ),
            cache@.healthy(),
    {
        let mut windows: Vec<Option<usize>> = Vec::new();
        let mut l: usize = 0;
        while l < num_layers
            invariant
                l <= num_layers,
                windows@ == Seq::new(l as nat, |l: int| None::<usize>),
            decreases num_layers - l,
        {
            windows.push(None);
            l = l + 1;
            assert(windows@ =~= Seq::new(l as nat, |l: int| None::<usize>));
        }
        PagedKVCache::new_with_windows(num_layers, config, windows)
    }

    /// An empty cache with a sliding window for some layers: layer `i` with
    /// window `w` stores at most `w - 1` past tokens.
    pub fn new_with_windows(
        num_layers: usize,
        config: CacheConfig,
        windows: Vec<Option<usize>>,
    ) -> (cache: Self)
        requires
            config.page_size > 0,
            windows@.len() == num_layers,
            forall|l: int|
                0 <= l < windows@.len() ==> (#[trigger] windows@[l] matches Some(w) ==> w >= 2),
        ensures
            cache@ == PagedState::fresh(config, windows@),
            cache@.healthy(),
    {
        let initial_pages: usize = min_usize(config.num_pages(), INITIAL_ARENA_PAGES);
        let mut arenas: Vec<Option<ArenaSpan>> = Vec::new();
        let mut sliding: Vec<Option<usize>> = Vec::new();
        let mut l: usize = 0;
        while l < num_layers
            invariant
                l <= num_layers,
                arenas@ == Seq::new(l as nat, |l: int| None::<ArenaSpan>),
                sliding@ == Seq::new(l as nat, |l: int| None::<usize>),
            decreases num_layers - l,
        {
            arenas.push(None);
            sliding.push(None);
            l = l + 1;
            assert(arenas@ =~= Seq::new(l as nat, |l: int| None::<ArenaSpan>));
            assert(sliding@ =~= Seq::new(l as nat, |l: int| None::<usize>));
        }
        let cache = PagedKVCache {
            config,
            allocator: PageAllocator::new(initial_pages),
            materialized_pages: initial_pages,
            table: Vec::new(),
            seq_len: 0,
            arenas,
            layer_windows: windows,
            sliding,
            table_resident: false,
            table_dirty: true,
            filled: Ghost(Seq::new(num_layers as nat, |l: int| 0int)),
            mirror: Ghost(Seq::empty()),
        };
        proof {
            assert(cache@ =~= PagedState::fresh(config, windows@));
            law_fresh_is_healthy(config, windows@);
        }
        cache
    }

    /// Configuration of this cache.
    pub fn config(&self) -> (config: CacheConfig)
        ensures
            config == self@.config,
    {
        self.config
    }

    /// Number of layers.
    pub fn num_layers(&self) -> (layers: usize)
        ensures
            layers == self@.windows.len(),
    {
        self.layer_windows.len()
    }

    /// Cached positions.
    pub fn seq_len(&self) -> (len: usize)
        ensures
            len == self@.seq_len,
    {
        self.seq_len
    }

    /// Pages allocated to the sequence.
    pub fn pages_used(&self) -> (pages: Option<usize>)
        ensures
            pages is Some,
            pages->0 == self@.table.len(),
    {
        Some(self.table.len())
    }

    /// Rows that a sliding layer stores before its next chunk.
    pub fn stored(&self, layer: usize) -> (rows: Option<usize>)
        requires
            layer < self@.windows.len(),
            self@.healthy(),
        ensures
            rows == self@.sliding[layer as int],
    {
        self.sliding[layer]
    }

    /// Pages still available to this sequence.
    pub fn num_free_pages(&self) -> (pages: usize)
        requires
            self@.healthy(),
        ensures
            pages == self@.pages_free(),
    {
        proof {
            lemma_ceil_div(self.config.max_seq_len as int, self.config.page_size as int);
        }
        self.allocator.num_free() + (self.config.num_pages() - self.materialized_pages)
    }

    /// Page-table snapshot.
    pub fn page_stats_inner(&self) -> (stats: PageStats)
        requires
            self@.healthy(),
        ensures
            snapshot(stats, self@),
    {
        PageStats {
            pages_used: self.table.len(),
            pages_free: self.num_free_pages(),
            num_pages: self.config.num_pages(),
            pages_materialized: self.materialized_pages,
            page_size: self.config.page_size,
            seq_len: self.seq_len,
            layers_materialized: count_filled(&self.arenas),
            layers_total: self.arenas.len(),
            layers_sliding: count_filled(&self.sliding),
        }
    }

    /// Page-table snapshot, as the interface of all caches has it.
    pub fn page_stats(&self) -> (stats: Option<PageStats>)
        requires
            self@.healthy(),
        ensures
            stats matches Some(s) && snapshot(s, self@),
    {
        Some(self.page_stats_inner())
    }
}

impl PagedKVCache {
    /// Makes the page table cover `total` positions and says how many pages
    /// those are. When the free ids run out, the page count doubles, or goes
    /// straight to what is needed, within the capacity. Pages that the table
    /// has already stay where they are, and none is taken away.
    pub fn ensure_pages(&mut self, total: usize) -> (pages_needed: usize)
        requires
            old(self)@.healthy(),
            old(self)@.covers(total as int),
        ensures
            final(self)@ == old(self)@.after_ensure(total as int),
            final(self)@.healthy(),
            pages_needed == old(self)@.pages_for(total as int),
            final(self)@.table.len() == most(old(self)@.table.len() as int, pages_needed as int),
            final(self)@.table.take(old(self)@.table.len() as int) == old(self)@.table,
            final(self)@.seq_len == old(self)@.seq_len,
            final(self)@.materialized == (if pages_needed <= old(self)@.materialized {
                old(self)@.materialized
            } else {
                least(
                    most(2 * old(self)@.materialized, pages_needed as int),
                    old(self)@.capacity(),
                )
            }),
            old(self)@.table.len() >= pages_needed ==> final(self)@ == old(self)@,
    {
        let ghost s = self@;
        let ghost have = s.table.len() as int;
        let ghost idle = s.free.len() as int;
        let capacity: usize = self.config.num_pages();
        let pages_needed: usize = div_ceil(total, self.config.page_size);
        proof {
            lemma_ensure_distinct(s, total as int);
            assert(s.table + popped(s.free, 0) =~= s.table);
            assert(s.free.take(idle) =~= s.free);
            law_ensure_keeps_health(s, total as int);
        }
        while self.table.len() < pages_needed
            invariant
                s.healthy(),
                have == s.table.len(),
                idle == s.free.len(),
                capacity == s.capacity(),
                pages_needed == s.pages_for(total as int),
                pages_needed <= capacity,
                have <= self.table.len(),
                self.table.len() > have ==> self.table.len() <= pages_needed,
                self@ == (PagedState {
                    table: self.table@,
                    free: self.allocator@,
                    materialized: self.materialized_pages as int,
                    dirty: self.table_dirty,
                    ..s
                }),
                self.table_dirty == (s.dirty || self.table.len() > have),
                ({
                    ||| {
                        &&& self.materialized_pages == s.materialized
                        &&& self.table.len() <= have + idle
                        &&& self.table@ == s.table + popped(s.free, self.table.len() - have)
                        &&& self.allocator@ == s.free.take(idle - (self.table.len() - have))
                    }
                    ||| {
                        &&& self.materialized_pages == s.grown_for(pages_needed as int)
                        &&& have + idle < self.table.len()
                        &&& self.table@ == s.table + popped(s.free, idle)
                            + crate::paged_state::ascending(s.materialized, self.table.len() as int)
                        &&& self.allocator@ == descending(
                            self.table.len() as int,
                            s.grown_for(pages_needed as int),
                        )
                    }
                }),
            decreases pages_needed - self.table.len(),
        {
            let ghost before = self.table@;
            if self.allocator.num_free() == 0 && self.materialized_pages < capacity {
                let doubled: usize = if self.materialized_pages <= capacity / 2 {
                    self.materialized_pages * 2
                } else {
                    capacity
                };
                let wanted: usize = if doubled >= pages_needed {
                    doubled
                } else {
                    pages_needed
                };
                let grown: usize = min_usize(wanted, capacity);
                self.allocator.grow(self.materialized_pages, grown);
                self.materialized_pages = grown;
                assert(self.allocator@ =~= descending(s.materialized, grown as int));
                assert(grown == s.grown_for(pages_needed as int));
            }
            let page = self.allocator.alloc_page();
            match page {
                Some(id) => {
                    self.table.push(id);
                    self.table_dirty = true;
                },
                None => {
                    assert(false);
                },
            }
            proof {
                let now = self.table.len() as int;
                if now <= have + idle {
                    assert(self.table@ =~= s.table + popped(s.free, now - have));
                    assert(self.allocator@ =~= s.free.take(idle - (now - have)));
                } else {
                    assert(self.table@ =~= s.table + popped(s.free, idle)
                        + crate::paged_state::ascending(s.materialized, now));
                    assert(self.allocator@ =~= descending(
                        now,
                        s.grown_for(pages_needed as int),
                    ));
                }
            }
        }
        proof {
            assert(self@ =~= s.after_ensure(total as int));
        }
        pages_needed
    }

    /// Where the rows of the chunk `pos..pos + seq` go: one write for each page
    /// that it touches.
    fn plan_writes(&self, pos: usize, seq: usize) -> (writes: Vec<PageWrite>)
        requires
            self@.healthy(),
            pos + seq <= usize::MAX,
            ceil_div(pos + seq, self@.config.page_size as int) <= self@.table.len(),
        ensures
            writes@ == page_writes(
                self@.table,
                self@.config.page_size as int,
                pos as int,
                seq as int,
            ),
    {
        let page_size: usize = self.config.page_size;
        let ghost ps = page_size as int;
        let ghost touched = pages_touched(ps, pos as int, seq as int);
        let ghost table = self.table@;
        let mut writes: Vec<PageWrite> = Vec::new();
        let mut written: usize = 0;
        proof {
            lemma_ceil_div(pos + seq, ps);
            if seq > 0 {
                lemma_block_of(pos as int, pos + seq, ps);
            }
        }
        while written < seq
            invariant
                self@.healthy(),
                page_size == self@.config.page_size,
                ps == page_size,
                ps > 0,
                table == self.table@,
                self@.table == table,
                pos + seq <= usize::MAX,
                ceil_div(pos + seq, ps) <= table.len(),
                touched == pages_touched(ps, pos as int, seq as int),
                written <= seq,
                writes@.len() <= touched,
                writes@ == page_writes(table, ps, pos as int, seq as int).take(
                    writes@.len() as int,
                ),
                written < seq ==> (pos + written) / ps == pos as int / ps + writes@.len(),
                written < seq ==> writes@.len() < touched,
                written == seq ==> writes@.len() == touched,
                written == 0 || written == seq || (pos + written) % ps == 0,
            decreases seq - written,
        {
            let global: usize = pos + written;
            let slot: usize = global % page_size;
            let run: usize = min_usize(page_size - slot, seq - written);
            let ghost logical = global as int / ps;
            let ghost at = writes@.len() as int;
            proof {
                lemma_block_of(global as int, pos + seq, ps);
                lemma_block_of(pos as int, pos + seq, ps);
                lemma_ceil_div(pos + seq, ps);
            }
            let write = PageWrite { page: self.table[global / page_size], slot, from: written, run };
            proof {
                assert(global == logical * ps + slot);
                if written == 0 {
                    assert(run_start(ps, pos as int, logical) == pos);
                } else {
                    assert(run_start(ps, pos as int, logical) == global) by {
                        assert(slot == 0);
                    }
                }
                assert(write == page_write(table, ps, pos as int, seq as int, logical));
            }
            writes.push(write);
            written = written + run;
            proof {
                assert(writes@ =~= page_writes(table, ps, pos as int, seq as int).take(at + 1));
                let next = pos + written;
                if written < seq {
                    assert(next == (logical + 1) * ps) by (nonlinear_arith)
                        requires
                            next == global + (ps - slot),
                            global == logical * ps + slot,
                    ;
                    vstd::arithmetic::div_mod::lemma_div_multiples_vanish(logical + 1, ps);
                    vstd::arithmetic::div_mod::lemma_mod_multiples_basic(logical + 1, ps);
                    assert((logical + 1) * ps == ps * (logical + 1)) by (nonlinear_arith);
                    lemma_block_of(next as int, pos + seq, ps);
                } else {
                    let last = ceil_div(pos + seq, ps);
                    assert(last == logical + 1) by (nonlinear_arith)
                        requires
                            pos + seq <= logical * ps + ps,
                            logical * ps < pos + seq,
                            (last - 1) * ps < pos + seq,
                            last * ps >= pos + seq,
                            ps > 0,
                    ;
                }
            }
        }
        proof {
            assert(page_writes(table, ps, pos as int, seq as int).take(touched) =~= page_writes(
                table,
                ps,
                pos as int,
                seq as int,
            ));
        }
        writes
    }
}

impl PagedKVCache {
    /// A sliding layer takes a chunk of `seq` rows at position `pos`.
    ///
    /// Stored keys keep the positions that were baked into them; only the
    /// queries are counted from the first stored row. A chunk longer than the
    /// window attends over all of itself before the store is cut.
    fn sliding_attention(&mut self, layer: usize, seq: usize, pos: usize, w: usize) -> (step:
        AttentionStep)
        requires
            old(self)@.healthy(),
            old(self)@.accepts(layer as int, seq as int, pos as int),
            old(self)@.windows[layer as int] == Some(w),
        ensures
            final(self)@.healthy(),
            final(self)@ == old(self)@.after_slide(layer as int, seq as int, pos as int, w as int),
            step == sliding_step(old(self)@, layer as int, seq as int, w),
    {
        let ghost s = self@;
        proof {
            law_slide_keeps_health(s, layer as int, seq as int, pos as int, w);
            assert(s.layer_healthy(layer as int));
        }
        let stored: Option<usize> = self.sliding[layer];
        let past: usize = match stored {
            Some(rows) => rows,
            None => 0,
        };
        let full_len: usize = past + seq;
        let keep: usize = min_usize(full_len, w - 1);
        if layer == 0 {
            self.seq_len = pos + seq;
        }
        self.sliding.set(layer, Some(keep));
        proof {
            assert(self@ =~= s.after_slide(layer as int, seq as int, pos as int, w as int));
        }
        AttentionStep::Sliding {
            window: w,
            stored,
            full_len,
            query_start: past,
            keep,
            in_place: seq == 1,
        }
    }

    /// Layer `layer` takes a chunk of `seq` rows of `head_dim` values at
    /// position `pos`, to be attended to within `window` where one is given.
    ///
    /// Layer 0 of each pass advances the sequence; the later layers of the pass
    /// see the same positions. A sliding layer of this cache goes by its own
    /// window and touches no page.
    pub fn attention_opts(
        &mut self,
        layer: usize,
        seq: usize,
        head_dim: usize,
        pos: usize,
        window: Option<usize>,
    ) -> (step: AttentionStep)
        requires
            old(self)@.healthy(),
            old(self)@.accepts(layer as int, seq as int, pos as int),
        ensures
            final(self)@.healthy(),
            match old(self)@.windows[layer as int] {
                Some(w) => {
                    &&& final(self)@ == old(self)@.after_slide(
                        layer as int,
                        seq as int,
                        pos as int,
                        w as int,
                    )
                    &&& step == sliding_step(old(self)@, layer as int, seq as int, w)
                },
                None => {
                    &&& final(self)@ == old(self)@.after_paged(
                        layer as int,
                        seq as int,
                        pos as int,
                        head_dim as int,
                    )
                    &&& paged_step(
                        old(self)@,
                        layer as int,
                        seq as int,
                        head_dim as int,
                        pos as int,
                        window,
                        step,
                    )
                },
            },
    {
        let ghost s = self@;
        let total: usize = pos + seq;
        match self.layer_windows[layer] {
            Some(w) => {
                return self.sliding_attention(layer, seq, pos, w);
            },
            None => {},
        }
        proof {
            lemma_advance_keeps_health(s, layer as int, seq as int, pos as int);
            law_paged_keeps_health(s, layer as int, seq as int, pos as int, head_dim as int);
        }
        if layer == 0 {
            self.seq_len = total;
        }
        let ghost advanced = self@;
        assert(advanced =~= s.advanced(layer as int, seq as int, pos as int));
        proof {
            lemma_ensure_distinct(advanced, total as int);
        }
        let pages: usize = self.ensure_pages(total);
        let materialized: usize = self.materialized_pages;
        let span: Option<ArenaSpan> = self.arenas[layer];
        let quantized: bool = match span {
            Some(span) => span.quantized,
            None => self.config.quantize_kv && head_dim % KV_QUANT_GROUP == 0,
        };
        let arena: ArenaStep = match span {
            None => ArenaStep::Allocate {
                pages: materialized,
                columns: if quantized {
                    head_dim / 4
                } else {
                    head_dim
                },
                scale_columns: if quantized {
                    head_dim / KV_QUANT_GROUP
                } else {
                    0
                },
            },
            Some(span) => if span.pages < materialized {
                ArenaStep::Grow { from: span.pages, to: materialized }
            } else {
                ArenaStep::Keep
            },
        };
        let writes: Vec<PageWrite> = self.plan_writes(pos, seq);
        proof {
            assert(self@.layer_healthy(layer as int));
        }
        self.arenas.set(layer, Some(ArenaSpan { pages: materialized, quantized }));
        proof {
            self.filled@ = s.after_paged(
                layer as int,
                seq as int,
                pos as int,
                head_dim as int,
            ).filled;
            assert(self@ =~= s.after_paged(
                layer as int,
                seq as int,
                pos as int,
                head_dim as int,
            ));
        }
        AttentionStep::Paged {
            arena,
            quantized,
            writes,
            pages,
            total,
            in_place: seq == 1 && window.is_none(),
        }
    }

    /// Rolls back the last `n` cached tokens and says how many were dropped.
    /// Trailing pages that become unused are freed; once a sliding layer may
    /// have evicted rows, nothing is dropped and nothing changes.
    pub fn popn(&mut self, n: usize) -> (dropped: usize)
        requires
            old(self)@.healthy(),
        ensures
            dropped == old(self)@.dropped_by(n as int),
            final(self)@ == old(self)@.after_popn(n as int),
            final(self)@.healthy(),
    {
        let ghost s = self@;
        proof {
            law_popn_keeps_health(s, n as int);
        }
        let n: usize = min_usize(n, self.seq_len);
        if n == 0 {
            return 0;
        }
        let mut i: usize = 0;
        while i < self.layer_windows.len()
            invariant
                self@ == s,
                s.healthy(),
                i <= self.layer_windows.len(),
                forall|l: int|
                    0 <= l < i ==> !(#[trigger] s.windows[l] matches Some(w) && s.seq_len > w - 1),
            decreases self.layer_windows.len() - i,
        {
            proof {
                assert(s.layer_healthy(i as int));
            }
            match self.layer_windows[i] {
                Some(w) => {
                    if self.seq_len > w - 1 {
                        assert(s.windows[i as int] matches Some(w) && s.seq_len > w - 1);
                        return 0;
                    }
                },
                None => {},
            }
            i = i + 1;
        }
        assert(!s.evicted());
        let ghost t = s.after_popn(n as int);
        let mut l: usize = 0;
        while l < self.sliding.len()
            invariant
                s.healthy(),
                t == s.after_popn(n as int),
                s.dropped_by(n as int) == n,
                n > 0,
                l <= self.sliding.len(),
                self.sliding.len() == s.sliding.len(),
                self@ == (PagedState { sliding: self.sliding@, ..s }),
                forall|k: int| 0 <= k < l ==> #[trigger] self.sliding@[k] == t.sliding[k],
                forall|k: int| l <= k < self.sliding.len() ==> #[trigger] self.sliding@[k] == s.sliding[k],
            decreases self.sliding.len() - l,
        {
            let kept: Option<usize> = match self.sliding[l] {
                Some(stored) => if stored > n {
                    Some(stored - n)
                } else {
                    None
                },
                None => None,
            };
            self.sliding.set(l, kept);
            l = l + 1;
        }
        assert(self.sliding@ =~= t.sliding);
        self.seq_len = self.seq_len - n;
        let keep: usize = div_ceil(self.seq_len, self.config.page_size);
        let ghost have = s.table.len() as int;
        proof {
            assert(s.table.take(have) =~= s.table);
            assert(s.free + popped(s.table, 0) =~= s.free);
        }
        while self.table.len() > keep
            invariant
                have == s.table.len(),
                keep == s.pages_for(s.seq_len - n),
                self.table.len() <= have,
                self.table.len() >= least(have, keep as int),
                self.table@ == s.table.take(self.table.len() as int),
                self.allocator@ == s.free + popped(s.table, have - self.table.len()),
                self.table_dirty == (s.dirty || self.table.len() < have),
                self@ == (PagedState {
                    seq_len: s.seq_len - n,
                    sliding: t.sliding,
                    table: self.table@,
                    free: self.allocator@,
                    dirty: self.table_dirty,
                    ..s
                }),
            decreases self.table.len(),
        {
            let ghost now = self.table.len() as int;
            let page = self.table.pop();
            match page {
                Some(id) => {
                    self.allocator.free_page(id);
                    self.table_dirty = true;
                },
                None => {},
            }
            assert(self.table@ =~= s.table.take(now - 1));
            assert(self.allocator@ =~= s.free + popped(s.table, have - (now - 1)));
        }
        proof {
            self.filled@ = t.filled;
            assert(self@ =~= t);
        }
        n
    }

    /// Drops all cached tokens. The arenas keep the size that they have grown
    /// to.
    pub fn reset(&mut self)
        requires
            old(self)@.healthy(),
        ensures
            final(self)@ == old(self)@.after_reset(),
            final(self)@.healthy(),
    {
        let ghost s = self@;
        proof {
            law_reset_keeps_health(s);
        }
        self.table.clear();
        self.table_resident = false;
        self.table_dirty = true;
        self.allocator.reset(self.materialized_pages);
        self.seq_len = 0;
        let mut l: usize = 0;
        while l < self.sliding.len()
            invariant
                l <= self.sliding.len(),
                self.sliding.len() == s.sliding.len(),
                self@ == (PagedState {
                    sliding: self.sliding@,
                    filled: s.filled,
                    ..s.after_reset()
                }),
                forall|k: int| 0 <= k < l ==> #[trigger] self.sliding@[k] is None,
            decreases self.sliding.len() - l,
        {
            self.sliding.set(l, None);
            l = l + 1;
        }
        proof {
            self.filled@ = s.after_reset().filled;
            assert(self@ =~= s.after_reset());
        }
    }

    /// The page table for the device, where it must be handed out again: it has
    /// changed since, or has never been handed out. The device then reads the
    /// first `pages` entries.
    pub fn page_indices(&mut self, pages: usize) -> (upload: Option<Vec<i32>>)
        requires
            old(self)@.healthy(),
            pages <= old(self)@.table.len(),
        ensures
            upload is Some <==> old(self)@.dirty || old(self)@.mirror is None,
            upload matches Some(ids) ==> ids@ == Seq::new(
                old(self)@.table.len(),
                |i: int| old(self)@.table[i] as i32,
            ),
            final(self)@ == (PagedState {
                dirty: false,
                mirror: Some(old(self)@.table),
                ..old(self)@
            }),
            final(self)@.healthy(),
    {
        let ghost s = self@;
        if !self.table_dirty && self.table_resident {
            proof {
                assert(self@ =~= (PagedState { dirty: false, mirror: Some(s.table), ..s }));
            }
            return None;
        }
        let mut ids: Vec<i32> = Vec::new();
        let mut i: usize = 0;
        while i < self.table.len()
            invariant
                i <= self.table.len(),
                self@ == s,
                ids@ == Seq::new(i as nat, |i: int| s.table[i] as i32),
            decreases self.table.len() - i,
        {
            ids.push(
                #[verifier::truncate]
                (self.table[i] as i32),
            );
            i = i + 1;
            assert(ids@ =~= Seq::new(i as nat, |i: int| s.table[i] as i32));
        }
        self.table_dirty = false;
        self.table_resident = true;
        proof {
            self.mirror@ = s.table;
            let t = self@;
            assert(t =~= (PagedState { dirty: false, mirror: Some(s.table), ..s }));
            assert forall|l: int| 0 <= l < t.windows.len() implies #[trigger] t.layer_healthy(l) by {
                assert(s.layer_healthy(l));
                assert forall|p: int| 0 <= p && p * t.config.page_size < t.filled[l] implies #[trigger] t.page_resident(l, p) by {
                    if s.windows[l] is None {
                        assert(s.page_resident(l, p));
                    }
                }
            }
        }
        Some(ids)
    }
}

/// What sliding layer `layer` of window `w` does with a chunk of `seq` rows:
/// the queries come right behind the rows that it stores.
pub open spec fn sliding_step(s: PagedState, layer: int, seq: int, w: usize) -> AttentionStep {
    let stored = s.stored(layer);
    AttentionStep::Sliding {
        window: w,
        stored: s.sliding[layer],
        full_len: (stored + seq) as usize,
        query_start: stored as usize,
        keep: least(stored + seq, w - 1) as usize,
        in_place: seq == 1,
    }
}

/// What global layer `layer` does with a chunk of `seq` rows at `pos`.
pub open spec fn paged_step(
    s: PagedState,
    layer: int,
    seq: int,
    head_dim: int,
    pos: int,
    window: Option<usize>,
    step: AttentionStep,
) -> bool {
    let t = s.after_paged(layer, seq, pos, head_dim);
    match step {
        AttentionStep::Paged { arena, quantized, writes, pages, total, in_place } => {
            &&& quantized == s.stores_quantized(layer, head_dim)
            &&& arena == arena_step(s.arenas[layer], t.materialized, quantized, head_dim)
            &&& writes@ == page_writes(t.table, s.config.page_size as int, pos, seq)
            &&& pages == s.pages_for(pos + seq)
            &&& total == pos + seq
            &&& in_place == (seq == 1 && window is None)
        },
        AttentionStep::Sliding { .. } => false,
    }
}

} // verus!
