//! Which cache a session gets, and how large.

use vstd::prelude::*;

use crate::arith::{ceil_div, div_ceil, lemma_ceil_div};

verus! {

/// Which cache implementation to instantiate.
#[derive(Debug, Clone, Copy, PartialEq, Eq, Structural)]
pub enum CacheKind {
    /// Per-layer contiguous keys and values, joined on every step.
    Contiguous,
    /// Page arena with a page table (the default).
    Paged,
}

/// Configuration of one cache.
#[derive(Debug, Clone, Copy)]
pub struct CacheConfig {
    /// Maximum number of cached positions.
    pub max_seq_len: usize,
    /// Tokens per page (paged cache only).
    pub page_size: usize,
    /// Implementation to use.
    pub kind: CacheKind,
    /// Store the pages of global layers as packed 8-bit integers with one
    /// scale per group. Sliding layers stay in floating point.
    pub quantize_kv: bool,
}

impl CacheConfig {
    /// Default tokens per page.
    pub const DEFAULT_PAGE_SIZE: usize = 16;

    /// Pages that `max_seq_len` positions fill.
    pub open spec fn capacity_pages(self) -> int {
        ceil_div(self.max_seq_len as int, self.page_size as int)
    }

    /// Paged cache with the default page size.
    pub fn paged(max_seq_len: usize) -> (config: Self)
        ensures
            config == (CacheConfig {
                max_seq_len,
                page_size: Self::DEFAULT_PAGE_SIZE,
                kind: CacheKind::Paged,
                quantize_kv: false,
            }),
            config.page_size == 16,
    {
        CacheConfig {
            max_seq_len,
            page_size: Self::DEFAULT_PAGE_SIZE,
            kind: CacheKind::Paged,
            quantize_kv: false,
        }
    }

    /// Contiguous cache.
    pub fn contiguous(max_seq_len: usize) -> (config: Self)
        ensures
            config == (CacheConfig {
                max_seq_len,
                page_size: Self::DEFAULT_PAGE_SIZE,
                kind: CacheKind::Contiguous,
                quantize_kv: false,
            }),
            config.page_size == 16,
    {
        CacheConfig {
            max_seq_len,
            page_size: Self::DEFAULT_PAGE_SIZE,
            kind: CacheKind::Contiguous,
            quantize_kv: false,
        }
    }

    /// Number of pages in the arena.
    pub fn num_pages(&self) -> (pages: usize)
        requires
            self.page_size > 0,
        ensures
            pages == self.capacity_pages(),
            pages * self.page_size >= self.max_seq_len,
            pages > 0 ==> (pages - 1) * self.page_size < self.max_seq_len,
    {
        proof {
            lemma_ceil_div(self.max_seq_len as int, self.page_size as int);
        }
        div_ceil(self.max_seq_len, self.page_size)
    }
}

} // verus!
