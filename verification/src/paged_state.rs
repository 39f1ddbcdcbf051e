//! The mathematical state of a paged cache and its transitions.

use vstd::prelude::*;

use crate::arith::{ceil_div, least, most};
use crate::config::CacheConfig;
use crate::pages::descending;

verus! {

/// Values per quantization group along the head dimension.
pub const KV_QUANT_GROUP: usize = 32;

/// Pages a fresh arena starts with.
pub const INITIAL_ARENA_PAGES: usize = 32;

/// The arena of one global layer: how many pages it is sized to and whether
/// its rows are stored quantized.
#[derive(Debug, Clone, Copy, PartialEq, Eq, Structural)]
pub struct ArenaSpan {
    /// Pages the arena holds.
    pub pages: usize,
    /// Rows are packed 8-bit integers with group scales.
    pub quantized: bool,
}

/// Copies rows `from..from + run` of a chunk to the slots
/// `slot..slot + run` of one physical page.
#[derive(Debug, Clone, Copy, PartialEq, Eq, Structural)]
pub struct PageWrite {
    /// Physical page id.
    pub page: usize,
    /// First slot written.
    pub slot: usize,
    /// First row of the chunk.
    pub from: usize,
    /// Rows written.
    pub run: usize,
}

/// Everything a paged cache knows.
#[verifier::ext_equal]
pub struct PagedState {
    /// Configuration.
    pub config: CacheConfig,
    /// Free page ids, the next one last.
    pub free: Seq<usize>,
    /// Pages that an arena is sized to on its next touch.
    pub materialized: int,
    /// Logical page index to physical page id.
    pub table: Seq<usize>,
    /// Cached positions.
    pub seq_len: int,
    /// Arena of each layer, once touched.
    pub arenas: Seq<Option<ArenaSpan>>,
    /// Sliding window of each layer.
    pub windows: Seq<Option<usize>>,
    /// Rows that each sliding layer stores, once touched.
    pub sliding: Seq<Option<usize>>,
    /// Leading positions whose rows each global layer holds.
    pub filled: Seq<int>,
    /// The table has changed since it was last handed out.
    pub dirty: bool,
    /// The table as it was last handed out to the device.
    pub mirror: Option<Seq<usize>>,
}

/// The top `count` ids of the stack `free`, in the order in which they come off.
pub open spec fn popped(free: Seq<usize>, count: int) -> Seq<usize> {
    Seq::new(count as nat, |i: int| free[free.len() - 1 - i])
}

/// The ids `from..to` in ascending order.
pub open spec fn ascending(from: int, to: int) -> Seq<usize> {
    Seq::new((to - from) as nat, |i: int| (from + i) as usize)
}

/// No id occurs twice, and each is below `bound`.
pub open spec fn distinct_below(ids: Seq<usize>, bound: int) -> bool {
    &&& forall|i: int| 0 <= i < ids.len() ==> (#[trigger] ids[i]) < bound
    &&& forall|i: int, j: int|
        0 <= i < j < ids.len() ==> (#[trigger] ids[i]) != (#[trigger] ids[j])
}

/// First position of the chunk `pos..pos + seq` on logical page `logical`.
pub open spec fn run_start(page_size: int, pos: int, logical: int) -> int {
    most(pos, logical * page_size)
}

/// End of the chunk `pos..pos + seq` on logical page `logical`.
pub open spec fn run_end(page_size: int, pos: int, seq: int, logical: int) -> int {
    least(pos + seq, logical * page_size + page_size)
}

/// What appending the chunk `pos..pos + seq` writes to logical page `logical`.
pub open spec fn page_write(
    table: Seq<usize>,
    page_size: int,
    pos: int,
    seq: int,
    logical: int,
) -> PageWrite {
    let start = run_start(page_size, pos, logical);
    let end = run_end(page_size, pos, seq, logical);
    PageWrite {
        page: table[logical],
        slot: (start - logical * page_size) as usize,
        from: (start - pos) as usize,
        run: (end - start) as usize,
    }
}

/// Number of pages that the chunk `pos..pos + seq` touches.
pub open spec fn pages_touched(page_size: int, pos: int, seq: int) -> int {
    if seq == 0 {
        0
    } else {
        ceil_div(pos + seq, page_size) - pos / page_size
    }
}

/// The writes that place the chunk `pos..pos + seq`: one for each touched page.
pub open spec fn page_writes(table: Seq<usize>, page_size: int, pos: int, seq: int) -> Seq<
    PageWrite,
> {
    Seq::new(
        pages_touched(page_size, pos, seq) as nat,
        |i: int| page_write(table, page_size, pos, seq, pos / page_size + i),
    )
}

impl PagedState {
    /// Pages that the configured capacity fills.
    pub open spec fn capacity(self) -> int {
        self.config.capacity_pages()
    }

    /// The invariant of a paged cache.
    pub open spec fn healthy(self) -> bool {
        &&& self.config.page_size > 0
        &&& 0 <= self.seq_len <= self.config.max_seq_len
        &&& 0 <= self.materialized <= self.capacity()
        &&& self.table.len() + self.free.len() == self.materialized
        &&& distinct_below(self.table + self.free, self.materialized)
        &&& self.arenas.len() == self.windows.len()
        &&& self.sliding.len() == self.windows.len()
        &&& self.filled.len() == self.windows.len()
        &&& forall|l: int| 0 <= l < self.windows.len() ==> #[trigger] self.layer_healthy(l)
        &&& (self.mirror is Some && !self.dirty ==> self.mirror == Some(self.table))
    }

    /// The part of the invariant that speaks of layer `l`.
    pub open spec fn layer_healthy(self, l: int) -> bool {
        match self.windows[l] {
            Some(w) => {
                &&& w >= 2
                &&& self.arenas[l] is None
                &&& self.filled[l] == 0
                &&& (self.sliding[l] matches Some(stored) ==> stored <= least(
                    self.seq_len,
                    w - 1,
                ))
            },
            None => {
                &&& self.sliding[l] is None
                &&& 0 <= self.filled[l] <= self.seq_len
                &&& (self.arenas[l] matches Some(span) ==> span.pages <= self.materialized)
                &&& forall|p: int|
                    0 <= p && p * self.config.page_size < self.filled[l]
                        ==> #[trigger] self.page_resident(l, p)
            },
        }
    }

    /// The arena of layer `l` holds logical page `p`.
    pub open spec fn page_resident(self, l: int, p: int) -> bool {
        &&& p < self.table.len()
        &&& self.arenas[l] is Some
        &&& self.table[p] < self.arenas[l]->0.pages
    }

    /// A cache of `windows.len()` layers that holds nothing.
    pub open spec fn fresh(config: CacheConfig, windows: Seq<Option<usize>>) -> Self {
        let pages = least(config.capacity_pages(), INITIAL_ARENA_PAGES as int);
        PagedState {
            config,
            free: descending(0, pages),
            materialized: pages,
            table: Seq::empty(),
            seq_len: 0,
            arenas: Seq::new(windows.len(), |l: int| None::<ArenaSpan>),
            windows,
            sliding: Seq::new(windows.len(), |l: int| None::<usize>),
            filled: Seq::new(windows.len(), |l: int| 0int),
            dirty: true,
            mirror: None,
        }
    }

    /// Pages that `total` positions need.
    pub open spec fn pages_for(self, total: int) -> int {
        ceil_div(total, self.config.page_size as int)
    }

    /// The capacity holds `total` positions.
    pub open spec fn covers(self, total: int) -> bool {
        0 <= total && self.pages_for(total) <= self.capacity()
    }

    /// The page count after growing for `needed` pages: doubled, or straight to
    /// `needed`, but within the capacity.
    pub open spec fn grown_for(self, needed: int) -> int {
        least(most(2 * self.materialized, needed), self.capacity())
    }

    /// The state once the table covers `total` positions.
    pub open spec fn after_ensure(self, total: int) -> Self {
        let needed = self.pages_for(total);
        let missing = needed - self.table.len();
        if missing <= 0 {
            self
        } else if missing <= self.free.len() {
            PagedState {
                table: self.table + popped(self.free, missing),
                free: self.free.take(self.free.len() - missing),
                dirty: true,
                ..self
            }
        } else {
            PagedState {
                table: self.table + popped(self.free, self.free.len() as int) + ascending(
                    self.materialized,
                    needed,
                ),
                free: descending(needed, self.grown_for(needed)),
                materialized: self.grown_for(needed),
                dirty: true,
                ..self
            }
        }
    }

    /// Whether layer `layer` accepts a chunk of `seq` rows at position `pos`:
    /// appends are dense, stay within the capacity, and layer 0 of each pass
    /// comes first.
    pub open spec fn accepts(self, layer: int, seq: int, pos: int) -> bool {
        &&& 0 <= layer < self.windows.len()
        &&& 0 <= seq
        &&& 0 <= pos
        &&& pos + seq <= self.config.max_seq_len
        &&& (layer == 0 ==> pos == self.seq_len)
        &&& (layer != 0 ==> pos + seq == self.seq_len)
        &&& (self.sliding[layer] matches Some(stored) ==> stored <= pos)
    }

    /// The sequence length once layer `layer` has taken the chunk.
    pub open spec fn advanced(self, layer: int, seq: int, pos: int) -> Self {
        if layer == 0 {
            PagedState { seq_len: pos + seq, ..self }
        } else {
            self
        }
    }

    /// Rows that sliding layer `layer` stores.
    pub open spec fn stored(self, layer: int) -> int {
        match self.sliding[layer] {
            Some(stored) => stored as int,
            None => 0,
        }
    }

    /// The state once sliding layer `layer` of window `w` has taken the chunk:
    /// it keeps the trailing `w - 1` rows.
    pub open spec fn after_slide(self, layer: int, seq: int, pos: int, w: int) -> Self {
        let kept = least(self.stored(layer) + seq, w - 1) as usize;
        PagedState {
            sliding: self.sliding.update(layer, Some(kept)),
            ..self.advanced(layer, seq, pos)
        }
    }

    /// Whether a first touch of a layer with rows of `head_dim` values makes a
    /// quantized arena.
    pub open spec fn quantizes(self, head_dim: int) -> bool {
        self.config.quantize_kv && head_dim % (KV_QUANT_GROUP as int) == 0
    }

    /// Whether layer `layer` stores quantized rows once touched: an arena keeps
    /// the kind that its first touch gave it.
    pub open spec fn stores_quantized(self, layer: int, head_dim: int) -> bool {
        match self.arenas[layer] {
            Some(span) => span.quantized,
            None => self.quantizes(head_dim),
        }
    }

    /// The state once global layer `layer` has taken the chunk.
    pub open spec fn after_paged(self, layer: int, seq: int, pos: int, head_dim: int) -> Self {
        let ensured = self.advanced(layer, seq, pos).after_ensure(pos + seq);
        PagedState {
            arenas: self.arenas.update(
                layer,
                Some(
                    ArenaSpan {
                        pages: ensured.materialized as usize,
                        quantized: self.stores_quantized(layer, head_dim),
                    },
                ),
            ),
            filled: self.filled.update(
                layer,
                if self.filled[layer] >= pos {
                    pos + seq
                } else {
                    self.filled[layer]
                },
            ),
            ..ensured
        }
    }

    /// Some sliding layer may have evicted rows that a rollback would expose.
    pub open spec fn evicted(self) -> bool {
        exists|l: int|
            0 <= l < self.windows.len() && (#[trigger] self.windows[l] matches Some(w)
                && self.seq_len > w - 1)
    }

    /// Tokens that a rollback of `n` drops: all of `n` that are cached, or
    /// nothing once a sliding layer has evicted.
    pub open spec fn dropped_by(self, n: int) -> int {
        if self.evicted() {
            0
        } else {
            least(n, self.seq_len)
        }
    }

    /// The state after a rollback of `n` tokens.
    pub open spec fn after_popn(self, n: int) -> Self {
        let dropped = self.dropped_by(n);
        if dropped == 0 {
            self
        } else {
            let len = self.seq_len - dropped;
            let keep = least(self.table.len() as int, self.pages_for(len));
            PagedState {
                seq_len: len,
                table: self.table.take(keep),
                free: self.free + popped(self.table, self.table.len() - keep),
                dirty: self.dirty || keep < self.table.len(),
                sliding: Seq::new(
                    self.sliding.len(),
                    |l: int|
                        match self.sliding[l] {
                            Some(stored) if stored > dropped => Some((stored - dropped) as usize),
                            _ => None,
                        },
                ),
                filled: Seq::new(self.filled.len(), |l: int| least(self.filled[l], len)),
                ..self
            }
        }
    }

    /// The state after a reset: nothing is cached, and the arenas keep the size
    /// that they have grown to.
    pub open spec fn after_reset(self) -> Self {
        PagedState {
            free: descending(0, self.materialized),
            table: Seq::empty(),
            seq_len: 0,
            sliding: Seq::new(self.sliding.len(), |l: int| None::<usize>),
            filled: Seq::new(self.filled.len(), |l: int| 0int),
            dirty: true,
            mirror: None,
            ..self
        }
    }

    /// Pages still available: free ids, and capacity not yet materialized.
    pub open spec fn pages_free(self) -> int {
        self.free.len() + (self.capacity() - self.materialized)
    }
}

} // verus!
