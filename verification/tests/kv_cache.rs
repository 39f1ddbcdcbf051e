//! The caches driven over plain rows of numbers: what a layer reads must be what
//! was appended, whatever pages, stores or rollbacks lie in between.

use combs_models::attend::{
    attention_mask, flash_enabled, forbidden, needs_mask, shared_head, takes_flash,
};
use combs_models::kv_quant::{pack_lanes, pack_word, unpack_lanes, unpack_word};
use combs_models::{
    ArchSpec, ArenaStep, AttentionStep, CacheConfig, CacheKind, ContiguousKVCache, KVCache,
    LayerKind, NormFlavor, PageAllocator, PagedKVCache,
};
use combs_models::metadata::{Activation, Double, RopeScaling};

/// One key and one value of every head.
#[derive(Clone, Debug, PartialEq)]
struct Row {
    k: Vec<f32>,
    v: Vec<f32>,
}

/// Scores, mask, softmax and weighted sum for one chunk of queries.
fn attend(
    q: &[Vec<f32>],
    rows: &[Row],
    n_q: usize,
    n_kv: usize,
    d: usize,
    pos: usize,
    scale: f32,
    window: Option<usize>,
) -> Vec<f32> {
    let mut out = Vec::new();
    for (i, query) in q.iter().enumerate() {
        for h in 0..n_q {
            let g = shared_head(h, n_q, n_kv);
            let seen: Vec<&Row> = rows
                .iter()
                .enumerate()
                .filter(|(j, _)| !forbidden(pos + i, *j, window))
                .map(|(_, row)| row)
                .collect();
            let scores: Vec<f32> = seen
                .iter()
                .map(|row| {
                    (0..d).map(|c| query[h * d + c] * row.k[g * d + c]).sum::<f32>() * scale
                })
                .collect();
            let top = scores.iter().cloned().fold(f32::MIN, f32::max);
            let weights: Vec<f32> = scores.iter().map(|s| (s - top).exp()).collect();
            let sum: f32 = weights.iter().sum();
            for c in 0..d {
                out.push(
                    seen.iter()
                        .zip(&weights)
                        .map(|(row, p)| p / sum * row.v[g * d + c])
                        .sum::<f32>(),
                );
            }
        }
    }
    out
}

fn assert_close(a: &[f32], b: &[f32], what: &str) {
    assert_eq!(a.len(), b.len(), "{what}: shape");
    for (i, (x, y)) in a.iter().zip(b).enumerate() {
        assert!(x.is_finite() && y.is_finite(), "{what}[{i}]: {x} vs {y}");
        assert!((x - y).abs() < 1e-5, "{what}[{i}]: {x} vs {y}");
    }
}

/// The packed words and the group scales of one row.
fn quantize(values: &[f32]) -> (Vec<i32>, Vec<f32>) {
    let mut lanes: Vec<i32> = Vec::new();
    let mut scales = Vec::new();
    for group in values.chunks(32) {
        let top = group.iter().fold(0f32, |m, v| m.max(v.abs()));
        let scale = (top / 127.0).max(1e-8);
        scales.push(scale);
        lanes.extend(
            group.iter().map(|v| (v / scale).round().clamp(-127.0, 127.0) as i32),
        );
    }
    (pack_lanes(&lanes), scales)
}

fn dequantize(words: &Vec<i32>, scales: &[f32]) -> Vec<f32> {
    unpack_lanes(words)
        .iter()
        .enumerate()
        .map(|(i, lane)| *lane as f32 * scales[i / 32])
        .collect()
}

/// A paged cache with the rows it speaks of.
struct Paged {
    cache: PagedKVCache,
    arenas: Vec<Vec<Row>>,
    stores: Vec<Vec<Row>>,
    table: Vec<i32>,
    n_q: usize,
    n_kv: usize,
    d: usize,
}

impl Paged {
    fn new(cache: PagedKVCache, layers: usize, n_q: usize, n_kv: usize, d: usize) -> Self {
        Paged {
            cache,
            arenas: vec![Vec::new(); layers],
            stores: vec![Vec::new(); layers],
            table: Vec::new(),
            n_q,
            n_kv,
            d,
        }
    }

    /// Appends a chunk to a layer; hands back the window that the layer reads, the
    /// position of its first query in it, and the window that masks it.
    fn append(
        &mut self,
        layer: usize,
        chunk: &[Row],
        pos: usize,
        window: Option<usize>,
    ) -> (Vec<Row>, usize, Option<usize>) {
        let page_size = self.cache.config().page_size;
        match self.cache.attention_opts(layer, chunk.len(), self.d, pos, window) {
            AttentionStep::Sliding { window, stored, full_len, query_start, keep, .. } => {
                let store = &mut self.stores[layer];
                store.truncate(stored.unwrap_or(0));
                store.extend_from_slice(chunk);
                assert_eq!(store.len(), full_len);
                let full = store.clone();
                *store = full[full_len - keep..].to_vec();
                (full, query_start, Some(window))
            }
            AttentionStep::Paged { arena, quantized, writes, pages, total, .. } => {
                let blank = Row {
                    k: vec![0.0; self.n_kv * self.d],
                    v: vec![0.0; self.n_kv * self.d],
                };
                match arena {
                    ArenaStep::Allocate { pages, columns, scale_columns } => {
                        assert_eq!(columns, if quantized { self.d / 4 } else { self.d });
                        assert_eq!(scale_columns, if quantized { self.d / 32 } else { 0 });
                        self.arenas[layer] = vec![blank; pages * page_size];
                    }
                    ArenaStep::Grow { from, to } => {
                        assert_eq!(self.arenas[layer].len(), from * page_size);
                        self.arenas[layer].resize(to * page_size, blank);
                    }
                    ArenaStep::Keep => {}
                }
                for write in writes {
                    for r in 0..write.run {
                        let mut row = chunk[write.from + r].clone();
                        if quantized {
                            let (words, scales) = quantize(&row.k);
                            row.k = dequantize(&words, &scales);
                            let (words, scales) = quantize(&row.v);
                            row.v = dequantize(&words, &scales);
                        }
                        self.arenas[layer][write.page * page_size + write.slot + r] = row;
                    }
                }
                if let Some(ids) = self.cache.page_indices(pages) {
                    self.table = ids;
                }
                let rows = (0..total)
                    .map(|p| {
                        let page = self.table[p / page_size] as usize;
                        self.arenas[layer][page * page_size + p % page_size].clone()
                    })
                    .collect();
                (rows, pos, window)
            }
        }
    }

    fn attention(
        &mut self,
        layer: usize,
        q: &[Vec<f32>],
        chunk: &[Row],
        pos: usize,
        scale: f32,
        window: Option<usize>,
    ) -> Vec<f32> {
        let (rows, start, window) = self.append(layer, chunk, pos, window);
        attend(q, &rows, self.n_q, self.n_kv, self.d, start, scale, window)
    }
}

/// A contiguous cache with the rows it speaks of.
struct Contiguous {
    cache: ContiguousKVCache,
    rows: Vec<Vec<Row>>,
}

impl Contiguous {
    fn new(layers: usize) -> Self {
        Contiguous { cache: ContiguousKVCache::new(layers), rows: vec![Vec::new(); layers] }
    }

    fn append(&mut self, layer: usize, chunk: &[Row]) -> Vec<Row> {
        let step = self.cache.attention_opts(layer, chunk.len());
        self.rows[layer].truncate(step.stored.unwrap_or(0));
        self.rows[layer].extend_from_slice(chunk);
        assert_eq!(self.rows[layer].len(), step.total);
        self.rows[layer].clone()
    }
}

fn kv_tok(i: usize, n_kv: usize, d: usize) -> Row {
    let mk = |salt: usize| -> Vec<f32> {
        (0..n_kv * d)
            .map(|j| ((i * 7 + j * 3 + salt) % 13) as f32 / 13.0 - 0.5)
            .collect()
    };
    Row { k: mk(0), v: mk(5) }
}

fn q_tok(i: usize, n_q: usize, d: usize) -> Vec<f32> {
    (0..n_q * d).map(|j| ((i * 11 + j * 5) % 17) as f32 / 17.0 - 0.5).collect()
}

/// Repeatable noise.
fn noise(seed: &mut u64) -> f32 {
    *seed = seed.wrapping_mul(6364136223846793005).wrapping_add(1442695040888963407);
    ((*seed >> 40) as f32) / ((1u64 << 24) as f32) * 2.0 - 1.0
}

fn rand_qkv(seq: usize, seed: &mut u64) -> (Vec<Vec<f32>>, Vec<Row>) {
    let q = (0..seq).map(|_| (0..4 * 8).map(|_| noise(seed)).collect()).collect();
    let rows = (0..seq)
        .map(|_| Row {
            k: (0..2 * 8).map(|_| noise(seed) * 0.8 + 0.37).collect(),
            v: (0..2 * 8).map(|_| noise(seed) * 1.3 - 0.11).collect(),
        })
        .collect();
    (q, rows)
}

fn config(max_seq_len: usize, page_size: usize, quantize_kv: bool) -> CacheConfig {
    CacheConfig { max_seq_len, page_size, kind: CacheKind::Paged, quantize_kv }
}

fn paged(layers: usize, max_seq_len: usize, page_size: usize) -> Paged {
    let cache = PagedKVCache::new(layers, config(max_seq_len, page_size, false));
    Paged::new(cache, layers, 4, 2, 8)
}

fn cache(max_seq_len: usize, page_size: usize) -> PagedKVCache {
    PagedKVCache::new(2, config(max_seq_len, page_size, false))
}

/// Grows the page table to `total` positions.
fn grow(c: &mut PagedKVCache, total: usize) {
    let pages = c.ensure_pages(total);
    assert_eq!(pages, total.div_ceil(c.config().page_size));
    let pos = c.seq_len();
    c.attention_opts(0, total - pos, 4, pos, None);
}

#[test]
fn allocator_alloc_in_order_and_exhaust() {
    let mut a = PageAllocator::new(3);
    assert_eq!(a.num_free(), 3);
    assert_eq!(a.alloc_page(), Some(0));
    assert_eq!(a.alloc_page(), Some(1));
    assert_eq!(a.alloc_page(), Some(2));
    assert_eq!(a.alloc_page(), None);
    assert_eq!(a.num_free(), 0);
}

#[test]
fn allocator_free_and_realloc_lifo() {
    let mut a = PageAllocator::new(2);
    let p0 = a.alloc_page().unwrap();
    let p1 = a.alloc_page().unwrap();
    a.free_page(p1);
    a.free_page(p0);
    assert_eq!(a.num_free(), 2);
    // LIFO stack: most recently freed page comes back first.
    assert_eq!(a.alloc_page(), Some(p0));
    assert_eq!(a.alloc_page(), Some(p1));
}

#[test]
fn allocator_reset_restores_all_pages() {
    let mut a = PageAllocator::new(4);
    a.alloc_page();
    a.alloc_page();
    a.reset(4);
    assert_eq!(a.num_free(), 4);
    assert_eq!(a.alloc_page(), Some(0));
}

#[test]
fn allocator_growth_hands_out_the_lowest_new_id_first() {
    let mut a = PageAllocator::new(1);
    assert_eq!(a.alloc_page(), Some(0));
    a.grow(1, 4);
    assert_eq!(a.num_free(), 3);
    assert_eq!(a.alloc_page(), Some(1));
    assert_eq!(a.alloc_page(), Some(2));
    assert_eq!(a.alloc_page(), Some(3));
    assert_eq!(a.alloc_page(), None);
}

#[test]
fn cache_config_num_pages_rounds_up() {
    assert_eq!(CacheConfig::paged(16).num_pages(), 1);
    assert_eq!(CacheConfig::paged(17).num_pages(), 2);
    assert_eq!(CacheConfig::paged(1).num_pages(), 1);
}

#[test]
fn cache_config_constructors_pick_the_kind() {
    let p = CacheConfig::paged(100);
    assert_eq!((p.max_seq_len, p.page_size, p.quantize_kv), (100, 16, false));
    assert!(p.kind == CacheKind::Paged);
    let c = CacheConfig::contiguous(100);
    assert_eq!((c.max_seq_len, c.page_size, c.quantize_kv), (100, 16, false));
    assert!(c.kind == CacheKind::Contiguous);
}

#[test]
fn popn_frees_only_fully_unused_pages() {
    let mut c = cache(64, 16);
    grow(&mut c, 40); // pages 0,1,2 (page 2 holds slots 32..39)
    assert_eq!(c.pages_used(), Some(3));
    assert_eq!(c.num_free_pages(), 1);

    c.popn(9); // seq 31 -> page 2 fully unused, freed
    assert_eq!(c.seq_len(), 31);
    assert_eq!(c.pages_used(), Some(2));
    assert_eq!(c.num_free_pages(), 2);

    c.popn(15); // seq 16 -> page 1 still needed (slots 16..31)
    assert_eq!(c.pages_used(), Some(1));
    c.popn(1); // seq 15 -> page 0 still needed
    assert_eq!(c.pages_used(), Some(1));

    c.popn(1000); // clamps to seq_len
    assert_eq!(c.seq_len(), 0);
    assert_eq!(c.pages_used(), Some(0));
    assert_eq!(c.num_free_pages(), 4);
}

#[test]
fn popn_boundary_exact_page_edge() {
    let mut c = cache(64, 16);
    grow(&mut c, 32); // exactly 2 pages
    c.popn(16); // seq 16 -> 1 page
    assert_eq!(c.pages_used(), Some(1));
    assert_eq!(c.num_free_pages(), 3);
    c.popn(16);
    assert_eq!(c.pages_used(), Some(0));
    assert_eq!(c.num_free_pages(), 4);
}

#[test]
fn regrowth_after_popn_reuses_freed_pages() {
    let mut c = cache(64, 16);
    grow(&mut c, 40);
    c.popn(9); // frees page for slots 32..48
    grow(&mut c, 33); // needs a page again -> reuses the freed one
    assert_eq!(c.pages_used(), Some(3));
    assert_eq!(c.num_free_pages(), 1);
}

#[test]
fn reset_releases_all_pages() {
    let mut c = cache(64, 16);
    grow(&mut c, 40);
    c.reset();
    assert_eq!(c.seq_len(), 0);
    assert_eq!(c.pages_used(), Some(0));
    assert_eq!(c.num_free_pages(), 4);
}

/// The doubling sequence, single-event chunk jumps, and a reset that keeps what
/// the arenas have grown to.
#[test]
fn arena_growth_doubles_and_reset_keeps_the_materialized_size() {
    let mut c = cache(4096, 16); // 256-page capacity, 32-page floor
    assert_eq!(c.page_stats_inner().pages_materialized, 32);
    assert_eq!(c.num_free_pages(), 256);

    grow(&mut c, 32 * 16); // exactly the floor: no growth
    assert_eq!(c.page_stats_inner().pages_materialized, 32);
    grow(&mut c, 32 * 16 + 1); // one past: double
    assert_eq!(c.page_stats_inner().pages_materialized, 64);
    grow(&mut c, 200 * 16); // a chunk jump: straight to 200, doubled = 128 < 200
    assert_eq!(c.page_stats_inner().pages_materialized, 200);
    assert_eq!(c.num_free_pages(), 256 - 200);

    c.reset();
    assert_eq!(
        c.page_stats_inner().pages_materialized,
        200,
        "arenas are kept at their grown size across reset"
    );
    assert_eq!(c.num_free_pages(), 256, "reset frees every page");
    grow(&mut c, 200 * 16); // regrow to exactly the kept size: no event
    assert_eq!(c.page_stats_inner().pages_materialized, 200);
    grow(&mut c, 256 * 16); // to capacity
    assert_eq!(c.page_stats_inner().pages_materialized, 256);
    assert_eq!(c.num_free_pages(), 0);
}

/// Pages can be laid out ahead of the tokens: the length stays, pages that are
/// there stay, and what is covered already changes nothing.
#[test]
fn pages_are_laid_out_ahead_of_the_tokens() {
    let mut c = cache(4096, 16);
    assert_eq!(c.page_stats_inner().pages_materialized, 32);
    assert_eq!(c.num_free_pages(), 256);
    assert_eq!(c.ensure_pages(512), 32);
    assert_eq!(c.page_stats_inner().pages_materialized, 32);
    assert_eq!(c.ensure_pages(513), 33);
    assert_eq!(c.page_stats_inner().pages_materialized, 64);
    let ids = c.page_indices(33).unwrap();
    assert_eq!(ids, (0..33).collect::<Vec<i32>>());
    assert_eq!(c.ensure_pages(3200), 200);
    assert_eq!(c.page_stats_inner().pages_materialized, 200);
    assert_eq!(c.num_free_pages(), 56);
    assert_eq!(c.seq_len(), 0);
    assert_eq!(c.page_indices(200).unwrap()[..33], ids[..]);
    // Nothing is taken back, and the table need not be handed out again.
    assert_eq!(c.ensure_pages(16), 1);
    assert_eq!(c.pages_used(), Some(200));
    assert_eq!(c.page_indices(200), None);
    // A rollback with nothing cached drops nothing.
    assert_eq!(c.popn(5), 0);
    assert_eq!(c.pages_used(), Some(200));
    // A rollback gives back what is ahead of the tokens, too.
    c.attention_opts(0, 20, 4, 0, None);
    assert_eq!(c.popn(1), 1);
    assert_eq!(c.pages_used(), Some(2));
    assert_eq!(c.num_free_pages(), 254);
}

/// The last page may be cut short by the capacity in tokens.
#[test]
fn the_last_page_may_reach_past_the_capacity() {
    let mut c = cache(20, 16);
    assert_eq!(c.ensure_pages(32), 2);
    assert_eq!(c.pages_used(), Some(2));
    assert_eq!(c.num_free_pages(), 0);
}

/// A cache that starts small and doubles reads the same rows as one that is large
/// from the start: growth is a matter of allocation, never of values.
fn growth_parity_on(quantize: bool) {
    let (n_kv, n_q, d) = (2usize, 2usize, 32usize);
    let scale = 0.3;
    // 256-page capacity, 32-page floor: growth at 33, 65, 129 pages.
    let mut growing =
        Paged::new(PagedKVCache::new(1, config(512, 2, quantize)), 1, n_q, n_kv, d);
    let mut control =
        Paged::new(PagedKVCache::new(1, config(512, 2, quantize)), 1, n_q, n_kv, d);
    // Reach full size first; the size survives the reset.
    control.append(0, &vec![kv_tok(0, n_kv, d); 512], 0, None);
    control.cache.reset();
    assert_eq!(control.cache.page_stats_inner().pages_materialized, 256);

    for i in 0..300 {
        let row = [kv_tok(i, n_kv, d)];
        let q = [q_tok(i, n_q, d)];
        let a = growing.attention(0, &q, &row, i, scale, None);
        let b = control.attention(0, &q, &row, i, scale, None);
        assert_eq!(a, b, "step {i}");
        if i == 100 {
            assert_eq!(growing.cache.popn(3), 3);
            assert_eq!(control.cache.popn(3), 3);
            for r in 98..101 {
                let row = [kv_tok(r, n_kv, d)];
                let q = [q_tok(r, n_q, d)];
                let a = growing.attention(0, &q, &row, r, scale, None);
                let b = control.attention(0, &q, &row, r, scale, None);
                assert_eq!(a, b, "replay {r}");
            }
        }
    }
    assert_eq!(
        growing.cache.page_stats_inner().pages_materialized,
        256,
        "300 tokens at page_size 2 crosses 128 pages -> doubled to 256"
    );
    assert_eq!(control.cache.page_stats_inner().pages_materialized, 256);
}

#[test]
fn grown_cache_matches_full_size_control_bitwise() {
    growth_parity_on(false);
}

#[test]
fn grown_quant_cache_matches_full_size_control() {
    growth_parity_on(true);
}

/// A sliding layer, which evicts and rebases its mask, must attend as a global
/// layer does that keeps everything and enforces the window by masking alone.
#[test]
fn sliding_layer_matches_masked_global() {
    let (n_kv, n_q, d, w) = (2usize, 4usize, 4usize, 5usize);
    let cfg = CacheConfig::paged(64);
    let scale = 1.0 / (d as f32).sqrt() * 0.9;
    let mut global = Paged::new(PagedKVCache::new(1, cfg), 1, n_q, n_kv, d);
    let mut sliding = Paged::new(
        PagedKVCache::new_with_windows(1, cfg, vec![Some(w)]),
        1,
        n_q,
        n_kv,
        d,
    );

    // Prefill chunk of 7 (> window) at pos 0.
    let rows: Vec<Row> = (0..7).map(|i| kv_tok(i, n_kv, d)).collect();
    let q: Vec<Vec<f32>> = (0..7).map(|i| q_tok(i, n_q, d)).collect();
    let a = global.attention(0, &q, &rows, 0, scale, Some(w));
    let b = sliding.attention(0, &q, &rows, 0, scale, Some(w));
    assert_close(&a, &b, "prefill chunk");

    // Decode steps 7..14: eviction active well past the window.
    for i in 7..14 {
        let row = [kv_tok(i, n_kv, d)];
        let q = [q_tok(i, n_q, d)];
        let a = global.attention(0, &q, &row, i, scale, Some(w));
        let b = sliding.attention(0, &q, &row, i, scale, Some(w));
        assert_close(&a, &b, &format!("decode step {i}"));
    }

    // The sliding cache never touched the paged arena.
    assert_eq!(sliding.cache.pages_used(), Some(0), "sliding layers use no pages");
    assert!(global.cache.pages_used().unwrap() > 0);
}

/// Rollback before any eviction behaves exactly like a fresh cache that replays
/// the truncated stream.
#[test]
fn sliding_popn_before_eviction_matches_replay() {
    let (n_kv, n_q, d, w) = (2usize, 2usize, 4usize, 8usize);
    let cfg = CacheConfig::paged(64);
    let scale = 0.4;
    let mut cache = Paged::new(
        PagedKVCache::new_with_windows(1, cfg, vec![Some(w)]),
        1,
        n_q,
        n_kv,
        d,
    );
    for i in 0..4 {
        cache.attention(0, &[q_tok(i, n_q, d)], &[kv_tok(i, n_kv, d)], i, scale, Some(w));
    }
    assert_eq!(cache.cache.popn(2), 2, "un-evicted rollback succeeds");
    assert_eq!(cache.cache.seq_len(), 2);
    assert_eq!(cache.cache.stored(0), Some(2));

    let mut fresh = Paged::new(
        PagedKVCache::new_with_windows(1, cfg, vec![Some(w)]),
        1,
        n_q,
        n_kv,
        d,
    );
    for i in 0..2 {
        fresh.attention(0, &[q_tok(i, n_q, d)], &[kv_tok(i, n_kv, d)], i, scale, Some(w));
    }
    // Same next token after rollback vs replay must agree.
    let row = [kv_tok(9, n_kv, d)];
    let q = [q_tok(9, n_q, d)];
    let a = cache.attention(0, &q, &row, 2, scale, Some(w));
    let b = fresh.attention(0, &q, &row, 2, scale, Some(w));
    assert_close(&a, &b, "post-rollback step");
}

/// Once a sliding layer has evicted, rollback must refuse entirely and leave
/// everything as it is.
#[test]
fn sliding_popn_after_eviction_refuses() {
    let (n_kv, n_q, d, w) = (1usize, 1usize, 4usize, 4usize);
    let cfg = CacheConfig::paged(64);
    let mut cache = Paged::new(
        PagedKVCache::new_with_windows(1, cfg, vec![Some(w)]),
        1,
        n_q,
        n_kv,
        d,
    );
    for i in 0..6 {
        cache.attention(0, &[q_tok(i, n_q, d)], &[kv_tok(i, n_kv, d)], i, 0.5, Some(w));
    }
    assert_eq!(cache.cache.popn(1), 0, "evicted sliding layer refuses rollback");
    assert_eq!(cache.cache.seq_len(), 6, "refused rollback leaves state intact");
    assert_eq!(cache.cache.popn(0), 0);
    assert_eq!(cache.cache.stored(0), Some(3));
}

/// The same chunk pattern through both caches, every layer compared.
#[test]
fn paged_matches_contiguous_across_chunks_and_decodes() {
    let mut seed = 1;
    let mut contiguous = Contiguous::new(2);
    let mut paged = paged(2, 64, 4);

    // Chunked prefill (5 + 7 tokens), then three single-token decode steps.
    let steps = [5usize, 7, 1, 1, 1];
    let mut pos = 0;
    for (step, &seq) in steps.iter().enumerate() {
        let (q, rows) = rand_qkv(seq, &mut seed);
        for layer in 0..2 {
            let all = contiguous.append(layer, &rows);
            let out_c = attend(&q, &all, 4, 2, 8, pos, 0.35, None);
            let out_p = paged.attention(layer, &q, &rows, pos, 0.35, None);
            assert_close(&out_c, &out_p, &format!("step {step} layer {layer}"));
        }
        pos += seq;
        assert_eq!(contiguous.cache.seq_len(), pos);
        assert_eq!(paged.cache.seq_len(), pos);
    }
    // 15 positions over 4-token pages = 4 pages.
    assert_eq!(paged.cache.pages_used(), Some(4));
}

/// After a rollback, different rows for the rolled-back positions must read as in
/// a cache that never saw the first ones.
#[test]
fn paged_popn_rollback_matches_fresh_history() {
    let mut seed = 2;
    let mut rolled = paged(2, 64, 4);
    let mut fresh = Contiguous::new(2);

    // Original history: 10 tokens (3 pages), then roll back 6 -> keep 4.
    let (q0, rows0) = rand_qkv(10, &mut seed);
    for layer in 0..2 {
        rolled.attention(layer, &q0, &rows0, 0, 0.35, None);
    }
    rolled.cache.popn(6);
    assert_eq!(rolled.cache.seq_len(), 4);
    assert_eq!(rolled.cache.pages_used(), Some(1));

    // Fresh cache gets only the kept prefix.
    for layer in 0..2 {
        fresh.append(layer, &rows0[..4]);
    }

    // Both then see the same 3 new tokens; outputs must match.
    let (q1, rows1) = rand_qkv(3, &mut seed);
    for layer in 0..2 {
        let out_r = rolled.attention(layer, &q1, &rows1, 4, 0.35, None);
        let all = fresh.append(layer, &rows1);
        let out_f = attend(&q1, &all, 4, 2, 8, 4, 0.35, None);
        assert_close(&out_r, &out_f, &format!("rollback layer {layer}"));
    }
    assert_eq!(rolled.cache.seq_len(), 7);
    assert_eq!(fresh.cache.seq_len(), 7);
}

/// Writes that straddle page boundaries land in the right slots.
#[test]
fn paged_unaligned_chunks_match_contiguous() {
    let mut seed = 3;
    let mut contiguous = Contiguous::new(1);
    let mut paged = paged(1, 64, 4);

    let steps = [3usize, 6, 5, 2];
    let mut pos = 0;
    for (step, &seq) in steps.iter().enumerate() {
        let (q, rows) = rand_qkv(seq, &mut seed);
        let all = contiguous.append(0, &rows);
        let out_c = attend(&q, &all, 4, 2, 8, pos, 0.35, None);
        let out_p = paged.attention(0, &q, &rows, pos, 0.35, None);
        assert_close(&out_c, &out_p, &format!("unaligned step {step}"));
        pos += seq;
    }
    assert_eq!(paged.cache.seq_len(), 16);
    assert_eq!(paged.cache.pages_used(), Some(4));
}

/// A reset returns the paged cache to a clean, reusable state.
#[test]
fn paged_reset_allows_fresh_reuse() {
    let mut seed = 4;
    let mut c = paged(1, 64, 4);
    let (q, rows) = rand_qkv(9, &mut seed);
    c.attention(0, &q, &rows, 0, 0.35, None);
    assert_eq!(c.cache.seq_len(), 9);
    c.cache.reset();
    assert_eq!(c.cache.seq_len(), 0);
    assert_eq!(c.cache.pages_used(), Some(0));

    let mut reference = Contiguous::new(1);
    let (q, rows) = rand_qkv(5, &mut seed);
    let out_c = c.attention(0, &q, &rows, 0, 0.35, None);
    let all = reference.append(0, &rows);
    let out_r = attend(&q, &all, 4, 2, 8, 0, 0.35, None);
    assert_close(&out_c, &out_r, "post-reset reuse");
}

/// Quantized rows stay close to plain ones across chunks, page boundaries and
/// decode steps, and the pages and the rollback are the same for both.
#[test]
fn quantized_paged_cache_matches_fp_within_tolerance() {
    let (n_kv, n_q, d) = (2usize, 4usize, 32usize);
    let mut cfg_q = CacheConfig::paged(64);
    cfg_q.quantize_kv = true;
    let cfg_f = CacheConfig::paged(64);
    let scale = 1.0 / (d as f32).sqrt() * 0.9;
    let mut fp = Paged::new(PagedKVCache::new(1, cfg_f), 1, n_q, n_kv, d);
    let mut qn = Paged::new(PagedKVCache::new(1, cfg_q), 1, n_q, n_kv, d);

    // Prefill 20 (crosses a page boundary at 16), then decode to 30.
    let rows: Vec<Row> = (0..20).map(|i| kv_tok(i, n_kv, d)).collect();
    let q: Vec<Vec<f32>> = (0..20).map(|i| q_tok(i, n_q, d)).collect();
    let a = fp.attention(0, &q, &rows, 0, scale, None);
    let b = qn.attention(0, &q, &rows, 0, scale, None);
    for (i, (x, y)) in a.iter().zip(&b).enumerate() {
        assert!((x - y).abs() < 1e-2, "prefill[{i}]: {x} vs {y}");
    }
    for i in 20..30 {
        let row = [kv_tok(i, n_kv, d)];
        let q = [q_tok(i, n_q, d)];
        let a = fp.attention(0, &q, &row, i, scale, None);
        let b = qn.attention(0, &q, &row, i, scale, None);
        for (j, (x, y)) in a.iter().zip(&b).enumerate() {
            assert!((x - y).abs() < 1e-2, "decode {i}[{j}]: {x} vs {y}");
        }
    }
    assert_eq!(qn.cache.pages_used(), fp.cache.pages_used());
    assert_eq!(qn.cache.popn(5), 5, "quantized rollback works (no sliding)");
    assert_eq!(qn.cache.seq_len(), 25);
}

/// Values that lie on the grid of their group come back bit for bit, through all
/// four lanes and the negative extremes.
#[test]
fn kv_quant_roundtrip_exact_on_grid_values() {
    let d = 64usize;
    // q values sweep [-127, 127] across positions; x = q * 0.5.
    let mut data: Vec<f32> = (0..2 * 3 * d)
        .map(|i| {
            let q = ((i * 37) % 255) as i64 - 127; // covers all lanes
            q as f32 * 0.5
        })
        .collect();
    // Force absmax = 63.5 per 32-group: overwrite one slot per group.
    for g in 0..(2 * 3 * d) / 32 {
        data[g * 32] = 63.5;
    }
    let (packed, scales) = quantize(&data);
    let back = dequantize(&packed, &scales);
    for (i, (a, b)) in data.iter().zip(back.iter()).enumerate() {
        assert!((a - b).abs() < 1e-6, "[{i}]: {a} vs {b} (must be exact)");
    }
}

/// On arbitrary values the error is bounded by half a step per element.
#[test]
fn kv_quant_error_bounded_by_half_step() {
    let d = 64usize;
    let data: Vec<f32> =
        (0..2 * 5 * d).map(|i| ((i * 7919) % 1000) as f32 / 250.0 - 2.0).collect();
    let (packed, scales) = quantize(&data);
    let back = dequantize(&packed, &scales);
    for (g, chunk) in data.chunks(32).enumerate() {
        let absmax = chunk.iter().fold(0f32, |m, v| m.max(v.abs()));
        let half_step = absmax / 254.0 + 1e-6;
        for (j, (a, b)) in chunk.iter().zip(&back[g * 32..g * 32 + 32]).enumerate() {
            assert!((a - b).abs() <= half_step, "group {g} elem {j}: |{a} - {b}| > {half_step}");
        }
    }
}

/// Chunks of any size, rollbacks and resets in any order: a global layer reads all
/// that it was given, a sliding one the end of it.
#[test]
fn sessions_read_back_their_past() {
    let mut seed = 11;
    let windows = vec![None, Some(5), None];
    let config = config(96, 3, false);
    let mut cache = Paged::new(
        PagedKVCache::new_with_windows(3, config, windows.clone()),
        3,
        1,
        1,
        1,
    );
    let mut past: Vec<Vec<Row>> = vec![Vec::new(); 3];
    let mut made = 0usize;
    for _ in 0..400 {
        let pick = (noise(&mut seed) * 50.0 + 50.0) as usize;
        let pos = past[0].len();
        if pick < 70 && pos < 96 {
            let len = (1 + pick % 7).min(96 - pos);
            for layer in 0..3 {
                let chunk: Vec<Row> = (0..len)
                    .map(|i| {
                        let x = ((made + i) * 3 + layer) as f32;
                        Row { k: vec![x], v: vec![-x] }
                    })
                    .collect();
                let (rows, start, _) = cache.append(layer, &chunk, pos, windows[layer]);
                past[layer].extend(chunk);
                let seen = &past[layer][past[layer].len() - rows.len()..];
                assert_eq!(rows, seen.to_vec());
                assert_eq!(start, rows.len() - len);
                match windows[layer] {
                    None => assert_eq!(rows.len(), pos + len),
                    Some(w) => assert_eq!(rows.len(), pos.min(w - 1) + len),
                }
            }
            made += len;
        } else if pick < 95 {
            let dropped = cache.cache.popn(pick % 4);
            assert_eq!(dropped, if pos > 4 { 0 } else { (pick % 4).min(pos) });
            for rows in &mut past {
                rows.truncate(pos - dropped);
            }
        } else {
            cache.cache.reset();
            for rows in &mut past {
                rows.clear();
            }
        }
        assert_eq!(cache.cache.seq_len(), past[0].len());
        let stats = cache.cache.page_stats_inner();
        assert_eq!(stats.pages_used + stats.pages_free, stats.num_pages);
    }
}

#[test]
fn packed_words_have_the_corners_they_should() {
    assert_eq!(pack_word(127, 127, 127, 127), i32::MAX);
    assert_eq!(pack_word(0, 0, 0, 0), 128 + 128 * 256 + 128 * 65536);
    assert_eq!(pack_word(-127, -127, -127, -127), 1 + 256 + 65536 - 127 * 16777216);
    assert_eq!(unpack_word(i32::MAX), (127, 127, 127, 127));
    assert_eq!(unpack_word(-1), (127, 127, 127, -1));
    assert_eq!(unpack_word(0), (-128, -128, -128, 0));
    for q in [-127, -1, 0, 1, 63, 127] {
        assert_eq!(unpack_word(pack_word(q, -q, q, -q)), (q, -q, q, -q));
    }
}

#[test]
fn writes_split_at_page_edges() {
    let mut c = cache(64, 4);
    match c.attention_opts(0, 10, 4, 0, None) {
        AttentionStep::Paged { arena, quantized, writes, pages, total, in_place } => {
            assert_eq!(arena, ArenaStep::Allocate { pages: 16, columns: 4, scale_columns: 0 });
            assert!(!quantized);
            assert!(!in_place);
            assert_eq!((pages, total), (3, 10));
            let plan: Vec<(usize, usize, usize, usize)> =
                writes.iter().map(|w| (w.page, w.slot, w.from, w.run)).collect();
            assert_eq!(plan, vec![(0, 0, 0, 4), (1, 0, 4, 4), (2, 0, 8, 2)]);
        }
        other => panic!("{other:?}"),
    }
    assert_eq!(c.page_indices(3), Some(vec![0, 1, 2]));
    assert_eq!(c.page_indices(3), None, "the uploaded table is still good");
    c.attention_opts(1, 10, 4, 0, None);
    match c.attention_opts(0, 1, 4, 10, None) {
        AttentionStep::Paged { arena, writes, in_place, .. } => {
            assert_eq!(arena, ArenaStep::Keep);
            assert!(in_place);
            assert_eq!(writes.len(), 1);
            assert_eq!((writes[0].page, writes[0].slot, writes[0].run), (2, 2, 1));
        }
        other => panic!("{other:?}"),
    }
}

#[test]
fn stats_count_touched_layers() {
    let mut c = PagedKVCache::new_with_windows(3, CacheConfig::paged(64), vec![None, Some(4), None]);
    c.attention_opts(0, 3, 4, 0, None);
    c.attention_opts(1, 3, 4, 0, Some(4));
    let s = c.page_stats().unwrap();
    assert_eq!(s.pages_used, 1);
    assert_eq!(s.pages_free, 3);
    assert_eq!(s.num_pages, 4);
    assert_eq!(s.pages_materialized, 4);
    assert_eq!(s.page_size, 16);
    assert_eq!(s.seq_len, 3);
    assert_eq!(s.layers_materialized, 1);
    assert_eq!(s.layers_total, 3);
    assert_eq!(s.layers_sliding, 1);
    assert_eq!(c.num_layers(), 3);
}

#[test]
fn a_contiguous_cache_never_rolls_back() {
    let mut c = ContiguousKVCache::new(1);
    c.attention_opts(0, 4);
    assert_eq!(c.popn(2), 0);
    assert_eq!(c.seq_len(), 4);
    assert_eq!(c.pages_used(), None);
    assert!(c.page_stats().is_none());
    c.reset();
    assert_eq!(c.seq_len(), 0);
    assert_eq!(c.attention_opts(0, 2).stored, None);
}

fn spec(layers: Vec<LayerKind>) -> ArchSpec {
    ArchSpec {
        activation: Activation::Silu,
        norm_flavor: NormFlavor::RmsNorm,
        qk_norm: false,
        sandwich_norms: false,
        embed_scale_sqrt_hidden: false,
        attn_logit_softcap: None,
        final_logit_softcap: None,
        query_pre_attn_scalar: None,
        rope_theta: Double { bits: 10000f64.to_bits() },
        rope_scaling: RopeScaling::Unscaled,
        rope_local_theta: None,
        layers,
    }
}

#[test]
fn a_cache_is_made_for_the_layout_of_its_model() {
    let layout = spec(vec![LayerKind::Global, LayerKind::Sliding(4)]);
    let mut c = KVCache::create_for(&layout, &CacheConfig::paged(32));
    assert_eq!(c.seq_len(), 0);
    assert_eq!(c.pages_used(), Some(0));
    if let KVCache::Paged(cache) = &mut c {
        cache.attention_opts(0, 6, 4, 0, None);
        cache.attention_opts(1, 6, 4, 0, Some(4));
    }
    assert_eq!(c.seq_len(), 6);
    assert_eq!(c.popn(1), 0);
    c.reset();
    assert_eq!(c.seq_len(), 0);
    assert_eq!(c.page_stats().unwrap().layers_total, 2);

    let c = KVCache::create_for(&layout, &CacheConfig::contiguous(32));
    assert_eq!(c.pages_used(), None);
    let c = KVCache::create(5, &CacheConfig::paged(32));
    assert_eq!(c.page_stats().unwrap().layers_total, 5);
}

#[test]
fn masks_hide_what_lies_ahead_and_too_far_behind() {
    assert!(!forbidden(4, 4, None));
    assert!(forbidden(4, 5, None));
    assert!(!forbidden(4, 0, None));
    assert!(!forbidden(4, 3, Some(2)));
    assert!(forbidden(4, 2, Some(2)));
    let mask = attention_mask(1, 2, 3, Some(2));
    assert_eq!(mask, vec![false, false, true, true, false, false]);
    assert!(!needs_mask(1, None));
    assert!(needs_mask(1, Some(3)));
    assert!(needs_mask(2, None));
    assert!(flash_enabled(None));
    assert!(flash_enabled(Some("flash")));
    assert!(!flash_enabled(Some("manual")));
    assert!(takes_flash(true, None, true));
    assert!(!takes_flash(true, Some(4), true));
    assert!(!takes_flash(false, None, true));
    assert!(!takes_flash(true, None, false));
    assert_eq!((0..8).map(|h| shared_head(h, 8, 2)).collect::<Vec<_>>(), vec![0, 0, 0, 0, 1, 1, 1, 1]);
}
