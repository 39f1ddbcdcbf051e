//! The cache of a session, of either kind.

use vstd::prelude::*;

use crate::archspec::{window_of, ArchSpec};
use crate::config::{CacheConfig, CacheKind};
use crate::contiguous::ContiguousKVCache;
use crate::paged::{PageStats, PagedKVCache};
use crate::paged_state::PagedState;

verus! {

/// The cache of a session.
pub enum KVCache {
    /// One growing run of rows per layer.
    Contiguous(ContiguousKVCache),
    /// Pages, and rolling stores for sliding layers.
    Paged(PagedKVCache),
}

impl KVCache {
    /// The invariant of the cache.
    pub open spec fn healthy(&self) -> bool {
        self matches KVCache::Paged(cache) ==> cache@.healthy()
    }

    /// Cached positions.
    pub open spec fn len(&self) -> int {
        match self {
            KVCache::Contiguous(cache) => cache.len(),
            KVCache::Paged(cache) => cache@.seq_len,
        }
    }

    /// A fresh cache for a model of `num_layers` layers without windows.
    pub fn create(num_layers: usize, config: &CacheConfig) -> (cache: Self)
        requires
            config.kind is Paged ==> config.page_size > 0,
        ensures
            cache.healthy(),
            cache.len() == 0,
            match config.kind {
                CacheKind::Contiguous => cache matches KVCache::Contiguous(c) && c.layers()
                    == Seq::new(num_layers as nat, |l: int| None::<usize>),
                CacheKind::Paged => cache matches KVCache::Paged(c) && c@ == PagedState::fresh(
                    *config,
                    Seq::new(num_layers as nat, |l: int| None::<usize>),
                ),
            },
    {
        match config.kind {
            CacheKind::Contiguous => KVCache::Contiguous(ContiguousKVCache::new(num_layers)),
            CacheKind::Paged => KVCache::Paged(PagedKVCache::new(num_layers, *config)),
        }
    }

    /// A fresh cache for a model whose layers attend as `spec` says: sliding
    /// layers keep a rolling store in a paged cache.
    pub fn create_for(spec: &ArchSpec, config: &CacheConfig) -> (cache: Self)
        requires
            config.kind is Paged ==> config.page_size > 0 && forall|i: int|
                0 <= i < spec.layers@.len() ==> (window_of(#[trigger] spec.layers@[i]) matches Some(
                    w,
                ) ==> w >= 2),
        ensures
            cache.healthy(),
            cache.len() == 0,
            match config.kind {
                CacheKind::Contiguous => cache matches KVCache::Contiguous(c) && c.layers()
                    == Seq::new(spec.layers@.len(), |l: int| None::<usize>),
                CacheKind::Paged => cache matches KVCache::Paged(c) && c@ == PagedState::fresh(
                    *config,
                    Seq::new(spec.layers@.len(), |i: int| window_of(spec.layers@[i])),
                ),
            },
    {
        match config.kind {
            CacheKind::Contiguous => KVCache::Contiguous(
                ContiguousKVCache::new(spec.layers.len()),
            ),
            CacheKind::Paged => {
                let windows: Vec<Option<usize>> = spec.windows();
                assert forall|l: int| 0 <= l < windows@.len() implies (
                #[trigger] windows@[l] matches Some(w) ==> w >= 2) by {
                    assert(windows@[l] == window_of(spec.layers@[l]));
                }
                KVCache::Paged(
                    PagedKVCache::new_with_windows(spec.layers.len(), *config, windows),
                )
            },
        }
    }

    /// Cached positions.
    pub fn seq_len(&self) -> (len: usize)
        ensures
            len == self.len(),
            match self {
                KVCache::Contiguous(cache) => len == cache.len(),
                KVCache::Paged(cache) => len == cache@.seq_len,
            },
    {
        match self {
            KVCache::Contiguous(cache) => cache.seq_len(),
            KVCache::Paged(cache) => cache.seq_len(),
        }
    }

    /// Rolls back the last `n` cached tokens and says how many were dropped; a
    /// contiguous cache drops none.
    pub fn popn(&mut self, n: usize) -> (dropped: usize)
        requires
            old(self).healthy(),
        ensures
            final(self).healthy(),
            match *old(self) {
                KVCache::Contiguous(before) => dropped == 0 && *final(self) == *old(self),
                KVCache::Paged(before) => dropped == before@.dropped_by(n as int) && (
                *final(self) matches KVCache::Paged(after) && after@ == before@.after_popn(
                    n as int,
                )),
            },
    {
        match self {
            KVCache::Contiguous(cache) => cache.popn(n),
            KVCache::Paged(cache) => cache.popn(n),
        }
    }

    /// Drops all cached tokens.
    pub fn reset(&mut self)
        requires
            old(self).healthy(),
        ensures
            final(self).healthy(),
            final(self).len() == 0,
            match *old(self) {
                KVCache::Contiguous(before) => *final(self) matches KVCache::Contiguous(after)
                    && after.layers() == Seq::new(before.layers().len(), |l: int| None::<usize>),
                KVCache::Paged(before) => *final(self) matches KVCache::Paged(after) && after@
                    == before@.after_reset(),
            },
    {
        match self {
            KVCache::Contiguous(cache) => cache.reset(),
            KVCache::Paged(cache) => cache.reset(),
        }
    }

    /// Pages allocated to the sequence, in a paged cache.
    pub fn pages_used(&self) -> (pages: Option<usize>)
        ensures
            match self {
                KVCache::Contiguous(_) => pages is None,
                KVCache::Paged(cache) => pages matches Some(n) && n == cache@.table.len(),
            },
    {
        match self {
            KVCache::Contiguous(cache) => cache.pages_used(),
            KVCache::Paged(cache) => cache.pages_used(),
        }
    }

    /// Page-table snapshot, in a paged cache.
    pub fn page_stats(&self) -> (stats: Option<PageStats>)
        requires
            self.healthy(),
        ensures
            match self {
                KVCache::Contiguous(_) => stats is None,
                KVCache::Paged(cache) => stats matches Some(s) && crate::paged::snapshot(s, cache@),
            },
    {
        match self {
            KVCache::Contiguous(cache) => cache.page_stats(),
            KVCache::Paged(cache) => cache.page_stats(),
        }
    }
}

} // verus!
