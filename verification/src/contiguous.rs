//! The contiguous cache: one growing run of rows per layer.

use vstd::prelude::*;

use crate::paged::PageStats;

verus! {

/// A cache that joins each chunk to the rows that a layer already holds. It
/// cannot roll back.
pub struct ContiguousKVCache {
    layers: Vec<Option<usize>>,
    seq_len: usize,
}

/// How a layer of a contiguous cache takes a chunk.
#[derive(Debug, Clone, Copy, PartialEq, Eq, Structural)]
pub struct JoinStep {
    /// Rows that come before the chunk, if the layer holds any run.
    pub stored: Option<usize>,
    /// Rows afterwards, all of which are read.
    pub total: usize,
}

impl ContiguousKVCache {
    /// Rows that each layer holds, once touched.
    pub closed spec fn layers(&self) -> Seq<Option<usize>> {
        self.layers@
    }

    /// Cached positions.
    pub closed spec fn len(&self) -> int {
        self.seq_len as int
    }

    /// An empty cache of `num_layers` layers.
    pub fn new(num_layers: usize) -> (cache: Self)
        ensures
            cache.layers() == Seq::new(num_layers as nat, |l: int| None::<usize>),
            cache.len() == 0,
    {
        let mut layers: Vec<Option<usize>> = Vec::new();
        let mut l: usize = 0;
        while l < num_layers
            invariant
                l <= num_layers,
                layers@ == Seq::new(l as nat, |l: int| None::<usize>),
            decreases num_layers - l,
        {
            layers.push(None);
            l = l + 1;
            assert(layers@ =~= Seq::new(l as nat, |l: int| None::<usize>));
        }
        ContiguousKVCache { layers, seq_len: 0 }
    }

    /// Layer `layer` takes a chunk of `seq` rows: it is joined to what the layer
    /// holds, and the sequence is as long as that layer.
    pub fn attention_opts(&mut self, layer: usize, seq: usize) -> (step: JoinStep)
        requires
            layer < old(self).layers().len(),
            old(self).layers()[layer as int] matches Some(stored) ==> stored + seq <= usize::MAX,
        ensures
            step.stored == old(self).layers()[layer as int],
            step.total == seq + match step.stored {
                Some(stored) => stored as int,
                None => 0,
            },
            final(self).layers() == old(self).layers().update(layer as int, Some(step.total)),
            final(self).len() == step.total,
    {
        let stored: Option<usize> = self.layers[layer];
        let total: usize = match stored {
            Some(rows) => rows + seq,
            None => seq,
        };
        self.layers.set(layer, Some(total));
        self.seq_len = total;
        JoinStep { stored, total }
    }

    /// Cached positions.
    pub fn seq_len(&self) -> (len: usize)
        ensures
            len == self.len(),
    {
        self.seq_len
    }

    /// This cache cannot roll back: nothing is dropped and nothing changes.
    pub fn popn(&mut self, n: usize) -> (dropped: usize)
        ensures
            dropped == 0,
            *final(self) == *old(self),
    {
        0
    }

    /// Drops all cached tokens.
    pub fn reset(&mut self)
        ensures
            final(self).layers() == Seq::new(old(self).layers().len(), |l: int| None::<usize>),
            final(self).len() == 0,
    {
        let ghost count = self.layers@.len();
        let mut l: usize = 0;
        while l < self.layers.len()
            invariant
                l <= self.layers.len(),
                self.layers@.len() == count,
                forall|k: int| 0 <= k < l ==> #[trigger] self.layers@[k] is None,
            decreases self.layers.len() - l,
        {
            self.layers.set(l, None);
            l = l + 1;
        }
        self.seq_len = 0;
        assert(self.layers@ =~= Seq::new(count, |l: int| None::<usize>));
    }

    /// This cache has no pages.
    pub fn pages_used(&self) -> (pages: Option<usize>)
        ensures
            pages is None,
    {
        None
    }

    /// This cache has no pages.
    pub fn page_stats(&self) -> (stats: Option<PageStats>)
        ensures
            stats is None,
    {
        None
    }
}

} // verus!
