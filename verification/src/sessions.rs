//! A paged cache over a whole session.
//!
//! A session is a cache together with the rows that its layers hold: pages for
//! global layers, a rolling store for sliding ones. Beside them stands the past,
//! that is, all rows that each layer was ever given and that no rollback has
//! taken back. Whatever is done to the cache, what a global layer reads is its
//! past, and what a sliding layer stores is the end of its past.

use vstd::prelude::*;

use crate::arith::{least, lemma_block_of};
use crate::config::CacheConfig;
use crate::paged_laws::{
    law_cache_appends, law_ensure_keeps_health, law_fresh_is_healthy, law_paged_keeps_health, law_popn_keeps_health,
    law_reset_keeps_health, law_rollback_reads_prefix, law_slide_keeps_health,
    lemma_advance_keeps_health, lemma_ensure_distinct, place_all, window_rows, Rows,
};
use crate::paged_state::{page_writes, PagedState};

verus! {

/// A cache and the rows that its layers hold.
pub struct Session<V> {
    /// What the cache knows.
    pub state: PagedState,
    /// The pages of each layer.
    pub arenas: Seq<Rows<V>>,
    /// The rolling store of each layer.
    pub stores: Seq<Seq<V>>,
    /// What each layer was given.
    pub past: Seq<Seq<V>>,
}

/// What can be done to a cache.
pub enum SessionOp<V> {
    /// Every layer in turn takes its rows of a chunk.
    Append {
        /// The rows of each layer.
        chunk: Seq<Seq<V>>,
        /// Rows for each layer.
        len: int,
        /// Values of a row.
        head_dim: int,
    },
    /// Pages are laid out for this many positions, ahead of the tokens.
    Cover(int),
    /// The last tokens are taken back.
    Rollback(int),
    /// Everything is dropped.
    Reset,
}

impl<V> Session<V> {
    /// A session that has not begun.
    pub open spec fn fresh(
        config: CacheConfig,
        windows: Seq<Option<usize>>,
        blank: Rows<V>,
    ) -> Self {
        Session {
            state: PagedState::fresh(config, windows),
            arenas: Seq::new(windows.len(), |l: int| blank),
            stores: Seq::new(windows.len(), |l: int| Seq::<V>::empty()),
            past: Seq::new(windows.len(), |l: int| Seq::<V>::empty()),
        }
    }

    /// What global layer `l` reads of the first `count` positions.
    pub open spec fn reads(self, l: int, count: int) -> Seq<V> {
        window_rows(
            self.arenas[l],
            self.state.table,
            self.state.config.page_size as int,
            count,
        )
    }

    /// The lists have an entry for each layer.
    pub open spec fn sized(self) -> bool {
        &&& self.arenas.len() == self.state.windows.len()
        &&& self.stores.len() == self.state.windows.len()
        &&& self.past.len() == self.state.windows.len()
    }

    /// Layer `l` holds the first `count` positions of `past`: all of them if it is
    /// global, the last ones that its window needs if it slides.
    pub open spec fn holds(self, l: int, past: Seq<V>, count: int) -> bool {
        &&& past.len() == count
        &&& match self.state.windows[l] {
            None => self.state.filled[l] == count && self.reads(l, count) == past,
            Some(w) => {
                &&& self.state.stored(l) == least(count, w - 1)
                &&& self.stores[l] == past.skip(count - self.state.stored(l))
            },
        }
    }

    /// Every layer holds its past.
    pub open spec fn faithful(self) -> bool {
        &&& self.state.healthy()
        &&& self.sized()
        &&& forall|l: int|
            0 <= l < self.state.windows.len() ==> self.holds(
                l,
                #[trigger] self.past[l],
                self.state.seq_len,
            )
    }

    /// Layer `l` takes `rows` at position `pos`.
    pub open spec fn layer_takes(self, l: int, pos: int, rows: Seq<V>, head_dim: int) -> Self {
        let len = rows.len() as int;
        let past = self.past.update(l, self.past[l] + rows);
        match self.state.windows[l] {
            None => {
                let state = self.state.after_paged(l, len, pos, head_dim);
                let writes = page_writes(state.table, state.config.page_size as int, pos, len);
                Session {
                    state,
                    arenas: self.arenas.update(l, place_all(self.arenas[l], writes, rows)),
                    stores: self.stores,
                    past,
                }
            },
            Some(w) => {
                let full = self.stores[l] + rows;
                Session {
                    state: self.state.after_slide(l, len, pos, w as int),
                    arenas: self.arenas,
                    stores: self.stores.update(
                        l,
                        full.skip(full.len() - least(full.len() as int, w - 1)),
                    ),
                    past,
                }
            },
        }
    }

    /// The first `upto` layers have taken their rows of a chunk.
    pub open spec fn appended_until(self, chunk: Seq<Seq<V>>, upto: int, head_dim: int) -> Self
        decreases upto,
    {
        if upto <= 0 {
            self
        } else {
            self.appended_until(chunk, upto - 1, head_dim).layer_takes(
                upto - 1,
                self.state.seq_len,
                chunk[upto - 1],
                head_dim,
            )
        }
    }

    /// The cache accepts an operation.
    pub open spec fn allows(self, op: SessionOp<V>) -> bool {
        match op {
            SessionOp::Append { chunk, len, head_dim } => {
                &&& len >= 0
                &&& self.state.windows.len() > 0
                &&& chunk.len() == self.state.windows.len()
                &&& forall|l: int| 0 <= l < chunk.len() ==> (#[trigger] chunk[l]).len() == len
                &&& self.state.seq_len + len <= self.state.config.max_seq_len
            },
            SessionOp::Cover(total) => self.state.covers(total),
            SessionOp::Rollback(n) => n >= 0,
            SessionOp::Reset => true,
        }
    }

    /// The session after an operation.
    pub open spec fn after(self, op: SessionOp<V>) -> Self {
        match op {
            SessionOp::Append { chunk, len, head_dim } => self.appended_until(
                chunk,
                self.state.windows.len() as int,
                head_dim,
            ),
            SessionOp::Cover(total) => Session { state: self.state.after_ensure(total), ..self },
            SessionOp::Rollback(n) => {
                let state = self.state.after_popn(n);
                Session {
                    state,
                    arenas: self.arenas,
                    stores: Seq::new(
                        self.stores.len(),
                        |l: int| self.stores[l].take(state.stored(l)),
                    ),
                    past: Seq::new(self.past.len(), |l: int| self.past[l].take(state.seq_len)),
                }
            },
            SessionOp::Reset => Session {
                state: self.state.after_reset(),
                arenas: self.arenas,
                stores: Seq::new(self.stores.len(), |l: int| Seq::<V>::empty()),
                past: Seq::new(self.past.len(), |l: int| Seq::<V>::empty()),
            },
        }
    }

    /// The session after a run of operations.
    pub open spec fn after_all(self, ops: Seq<SessionOp<V>>) -> Self
        decreases ops.len(),
    {
        if ops.len() == 0 {
            self
        } else {
            self.after_all(ops.drop_last()).after(ops.last())
        }
    }

    /// The cache accepts each operation of a run when its turn comes.
    pub open spec fn allows_all(self, ops: Seq<SessionOp<V>>) -> bool
        decreases ops.len(),
    {
        if ops.len() == 0 {
            true
        } else {
            self.allows_all(ops.drop_last()) && self.after_all(ops.drop_last()).allows(ops.last())
        }
    }
}

/// A longer table reads the same where the shorter one reaches.
proof fn lemma_reads_under_growth<V>(
    arena: Rows<V>,
    short: Seq<usize>,
    long: Seq<usize>,
    page_size: int,
    count: int,
)
    requires
        page_size > 0,
        count >= 0,
        long.len() >= short.len(),
        long.take(short.len() as int) == short,
        forall|p: int| 0 <= p < count ==> #[trigger] (p / page_size) < short.len(),
    ensures
        window_rows(arena, long, page_size, count) == window_rows(arena, short, page_size, count),
{
    assert forall|p: int| 0 <= p < count implies long[#[trigger] (p / page_size)] == short[p
        / page_size] by {
        vstd::arithmetic::div_mod::lemma_div_pos_is_pos(p, page_size);
        assert(long.take(short.len() as int)[p / page_size] == long[p / page_size]);
    }
    let (a, b) = (
        window_rows(arena, long, page_size, count),
        window_rows(arena, short, page_size, count),
    );
    assert forall|p: int| 0 <= p < count implies a[p] == b[p] by {
        assert(long[p / page_size] == short[p / page_size]);
    }
    assert(a =~= b);
}

/// The table of a healthy cache reaches every position that a global layer holds.
proof fn lemma_table_reaches(s: PagedState, l: int, p: int)
    requires
        s.healthy(),
        0 <= l < s.windows.len(),
        s.windows[l] is None,
        0 <= p < s.filled[l],
    ensures
        0 <= p / (s.config.page_size as int) < s.table.len(),
{
    let ps = s.config.page_size as int;
    assert(s.layer_healthy(l));
    lemma_block_of(p, s.filled[l], ps);
    assert((p / ps) * ps <= p) by (nonlinear_arith)
        requires
            p == (p / ps) * ps + p % ps,
            p % ps >= 0,
    ;
    assert(s.page_resident(l, p / ps));
}

/// What layer `l` holds while a chunk goes through the layers.
spec fn partway<V>(
    before: Session<V>,
    now: Session<V>,
    chunk: Seq<Seq<V>>,
    len: int,
    upto: int,
    l: int,
) -> bool {
    if l < upto {
        &&& now.past[l] == before.past[l] + chunk[l]
        &&& now.holds(l, now.past[l], before.state.seq_len + len)
    } else {
        &&& now.past[l] == before.past[l]
        &&& now.holds(l, now.past[l], before.state.seq_len)
    }
}

/// One layer takes its rows; every other layer holds what it held.
proof fn lemma_layer_takes<V>(
    before: Session<V>,
    now: Session<V>,
    chunk: Seq<Seq<V>>,
    len: int,
    upto: int,
    head_dim: int,
)
    requires
        before.faithful(),
        before.allows(SessionOp::Append { chunk, len, head_dim }),
        0 <= upto < before.state.windows.len(),
        now.state.healthy(),
        now.sized(),
        now.state.config == before.state.config,
        now.state.windows == before.state.windows,
        now.state.seq_len == (if upto == 0 {
            before.state.seq_len
        } else {
            before.state.seq_len + len
        }),
        forall|l: int|
            0 <= l < before.state.windows.len() ==> #[trigger] partway(
                before,
                now,
                chunk,
                len,
                upto,
                l,
            ),
    ensures
        ({
            let next = now.layer_takes(upto, before.state.seq_len, chunk[upto], head_dim);
            &&& next.state.healthy()
            &&& next.sized()
            &&& next.state.config == before.state.config
            &&& next.state.windows == before.state.windows
            &&& next.state.seq_len == before.state.seq_len + len
            &&& forall|l: int|
                0 <= l < before.state.windows.len() ==> #[trigger] partway(
                    before,
                    next,
                    chunk,
                    len,
                    upto + 1,
                    l,
                )
        }),
{
    let pos = before.state.seq_len;
    let rows = chunk[upto];
    let s = now.state;
    let next = now.layer_takes(upto, pos, rows, head_dim);
    let t = next.state;
    let ps = s.config.page_size as int;
    assert(rows.len() == len);
    assert(partway(before, now, chunk, len, upto, upto));
    assert(s.layer_healthy(upto));
    assert(s.accepts(upto, len, pos));
    match s.windows[upto] {
        None => {
            let a = s.advanced(upto, len, pos);
            lemma_advance_keeps_health(s, upto, len, pos);
            lemma_ensure_distinct(a, pos + len);
            law_paged_keeps_health(s, upto, len, pos, head_dim);
            law_cache_appends(s, upto, pos, head_dim, now.arenas[upto], rows);
            assert(t.table.take(s.table.len() as int) == s.table);
            assert(t.sliding == s.sliding);
        },
        Some(w) => {
            law_slide_keeps_health(s, upto, len, pos, w);
            assert(t.table == s.table);
            assert(t.table.take(s.table.len() as int) =~= s.table);
            assert(t.filled == s.filled);
        },
    }
    assert forall|l: int| 0 <= l < before.state.windows.len() implies #[trigger] partway(
        before,
        next,
        chunk,
        len,
        upto + 1,
        l,
    ) by {
        assert(partway(before, now, chunk, len, upto, l));
        if l == upto {
            match s.windows[upto] {
                None => {},
                Some(w) => {
                    let past = before.past[upto];
                    let full = now.stores[upto] + rows;
                    let keep = least(full.len() as int, w - 1);
                    assert(full.len() == least(pos, w - 1) + len);
                    assert(keep == least(pos + len, w - 1));
                    assert(full.skip(full.len() - keep) =~= (past + rows).skip(
                        pos + len - keep,
                    ));
                },
            }
        } else {
            match s.windows[l] {
                None => {
                    let count = s.filled[l];
                    assert forall|p: int| 0 <= p < count implies #[trigger] (p / ps)
                        < s.table.len() by {
                        lemma_table_reaches(s, l, p);
                    }
                    lemma_reads_under_growth(now.arenas[l], s.table, t.table, ps, count);
                    assert(t.filled[l] == s.filled[l]);
                },
                Some(w) => {
                    assert(t.sliding[l] == s.sliding[l]);
                },
            }
        }
    }
}

/// A chunk goes through the first `upto` layers.
proof fn lemma_appended_until<V>(
    s: Session<V>,
    chunk: Seq<Seq<V>>,
    len: int,
    upto: int,
    head_dim: int,
)
    requires
        s.faithful(),
        s.allows(SessionOp::Append { chunk, len, head_dim }),
        0 <= upto <= s.state.windows.len(),
    ensures
        ({
            let now = s.appended_until(chunk, upto, head_dim);
            &&& now.state.healthy()
            &&& now.sized()
            &&& now.state.config == s.state.config
            &&& now.state.windows == s.state.windows
            &&& now.state.seq_len == (if upto == 0 {
                s.state.seq_len
            } else {
                s.state.seq_len + len
            })
            &&& forall|l: int|
                0 <= l < s.state.windows.len() ==> #[trigger] partway(s, now, chunk, len, upto, l)
        }),
    decreases upto,
{
    if upto == 0 {
        assert forall|l: int| 0 <= l < s.state.windows.len() implies #[trigger] partway(
            s,
            s,
            chunk,
            len,
            0,
            l,
        ) by {
            assert(s.holds(l, s.past[l], s.state.seq_len));
        }
    } else {
        lemma_appended_until(s, chunk, len, upto - 1, head_dim);
        let now = s.appended_until(chunk, upto - 1, head_dim);
        lemma_layer_takes(s, now, chunk, len, upto - 1, head_dim);
        let next = now.layer_takes(upto - 1, s.state.seq_len, chunk[upto - 1], head_dim);
        assert(s.appended_until(chunk, upto, head_dim) == next);
        assert forall|l: int| 0 <= l < s.state.windows.len() implies #[trigger] partway(
            s,
            next,
            chunk,
            len,
            upto,
            l,
        ) by {
            assert(partway(s, next, chunk, len, upto - 1 + 1, l));
        }
    }
}

/// A session begins with every layer holding nothing, as it was given nothing.
pub proof fn law_fresh_session<V>(
    config: CacheConfig,
    windows: Seq<Option<usize>>,
    blank: Rows<V>,
)
    requires
        config.page_size > 0,
        forall|l: int| 0 <= l < windows.len() ==> (#[trigger] windows[l] matches Some(w) ==> w >= 2),
    ensures
        Session::fresh(config, windows, blank).faithful(),
{
    let s = Session::fresh(config, windows, blank);
    law_fresh_is_healthy(config, windows);
    assert forall|l: int| 0 <= l < windows.len() implies s.holds(
        l,
        #[trigger] s.past[l],
        s.state.seq_len,
    ) by {
        assert(s.state.layer_healthy(l));
        assert(s.reads(l, 0) =~= Seq::<V>::empty());
        assert(Seq::<V>::empty().skip(0) =~= Seq::<V>::empty());
    }
}

/// An append gives every layer its rows: the past of each grows by them, and each
/// layer holds its past.
pub proof fn law_append_keeps_the_past<V>(
    s: Session<V>,
    chunk: Seq<Seq<V>>,
    len: int,
    head_dim: int,
)
    requires
        s.faithful(),
        s.allows(SessionOp::Append { chunk, len, head_dim }),
    ensures
        ({
            let t = s.after(SessionOp::Append { chunk, len, head_dim });
            &&& t.faithful()
            &&& t.state.seq_len == s.state.seq_len + len
            &&& forall|l: int|
                0 <= l < s.state.windows.len() ==> #[trigger] t.past[l] == s.past[l] + chunk[l]
        }),
{
    let n = s.state.windows.len() as int;
    lemma_appended_until(s, chunk, len, n, head_dim);
    let t = s.appended_until(chunk, n, head_dim);
    assert forall|l: int| 0 <= l < n implies t.holds(l, #[trigger] t.past[l], t.state.seq_len)
        && t.past[l] == s.past[l] + chunk[l] by {
        assert(partway(s, t, chunk, len, n, l));
    }
}

/// Pages laid out ahead of the tokens change nothing that any layer holds.
pub proof fn law_cover_keeps_the_past<V>(s: Session<V>, total: int)
    requires
        s.faithful(),
        s.state.covers(total),
    ensures
        s.after(SessionOp::Cover(total)).faithful(),
        s.after(SessionOp::Cover(total)).past == s.past,
        s.after(SessionOp::Cover(total)).state.seq_len == s.state.seq_len,
{
    let t = s.after(SessionOp::Cover(total));
    let ps = s.state.config.page_size as int;
    law_ensure_keeps_health(s.state, total);
    lemma_ensure_distinct(s.state, total);
    assert forall|l: int| 0 <= l < t.state.windows.len() implies t.holds(
        l,
        #[trigger] t.past[l],
        t.state.seq_len,
    ) by {
        assert(s.holds(l, s.past[l], s.state.seq_len));
        if s.state.windows[l] is None {
            let count = s.state.filled[l];
            assert forall|p: int| 0 <= p < count implies #[trigger] (p / ps)
                < s.state.table.len() by {
                lemma_table_reaches(s.state, l, p);
            }
            lemma_reads_under_growth(s.arenas[l], s.state.table, t.state.table, ps, count);
        }
    }
}

/// A rollback cuts the past of every layer to the tokens that are left, and each
/// layer holds what is left.
pub proof fn law_rollback_keeps_the_past<V>(s: Session<V>, n: int)
    requires
        s.faithful(),
        n >= 0,
    ensures
        s.after(SessionOp::Rollback(n)).faithful(),
        s.after(SessionOp::Rollback(n)).state.seq_len == s.state.seq_len - s.state.dropped_by(n),
{
    let t = s.after(SessionOp::Rollback(n));
    let dropped = s.state.dropped_by(n);
    law_popn_keeps_health(s.state, n);
    assert forall|l: int| 0 <= l < s.state.windows.len() implies t.holds(
        l,
        #[trigger] t.past[l],
        t.state.seq_len,
    ) by {
        assert(s.holds(l, s.past[l], s.state.seq_len));
        assert(s.state.layer_healthy(l));
        assert(t.state.layer_healthy(l));
        match s.state.windows[l] {
            None => {
                law_rollback_reads_prefix(s.state, n, l, s.arenas[l]);
            },
            Some(w) => {
                if dropped == 0 {
                    assert(t.stores[l] =~= s.stores[l]);
                    assert(t.past[l] =~= s.past[l]);
                } else {
                    assert(!(s.state.seq_len > w - 1)) by {
                        if s.state.seq_len > w - 1 {
                            assert(s.state.windows[l] matches Some(w) && s.state.seq_len > w - 1);
                            assert(s.state.evicted());
                        }
                    }
                    assert(s.state.stored(l) == s.state.seq_len);
                    assert(s.stores[l] =~= s.past[l]);
                    assert(t.state.stored(l) == t.state.seq_len);
                    assert(t.stores[l] =~= t.past[l].skip(0));
                }
            },
        }
    }
}

/// A reset forgets the past of every layer.
pub proof fn law_reset_forgets_the_past<V>(s: Session<V>)
    requires
        s.faithful(),
    ensures
        s.after(SessionOp::Reset).faithful(),
        s.after(SessionOp::Reset).state.seq_len == 0,
{
    let t = s.after(SessionOp::Reset);
    law_reset_keeps_health(s.state);
    assert forall|l: int| 0 <= l < s.state.windows.len() implies t.holds(
        l,
        #[trigger] t.past[l],
        t.state.seq_len,
    ) by {
        assert(t.state.layer_healthy(l));
        assert(t.reads(l, 0) =~= Seq::<V>::empty());
        assert(Seq::<V>::empty().skip(0) =~= Seq::<V>::empty());
    }
}

/// However a session goes on, in chunks of any size, with pages laid out ahead,
/// rollbacks and resets at any time and whatever the arenas grow to, every global layer reads its past and
/// every sliding layer stores the end of it.
pub proof fn law_sessions_stay_faithful<V>(s: Session<V>, ops: Seq<SessionOp<V>>)
    requires
        s.faithful(),
        s.allows_all(ops),
    ensures
        s.after_all(ops).faithful(),
    decreases ops.len(),
{
    if ops.len() > 0 {
        law_sessions_stay_faithful(s, ops.drop_last());
        let t = s.after_all(ops.drop_last());
        match ops.last() {
            SessionOp::Append { chunk, len, head_dim } => {
                law_append_keeps_the_past(t, chunk, len, head_dim);
            },
            SessionOp::Cover(total) => {
                law_cover_keeps_the_past(t, total);
            },
            SessionOp::Rollback(n) => {
                law_rollback_keeps_the_past(t, n);
            },
            SessionOp::Reset => {
                law_reset_forgets_the_past(t);
            },
        }
    }
}

/// Two sessions with the same layers, whatever their page sizes, capacities and
/// growth, that were given the same past read the same.
pub proof fn law_equal_pasts_read_alike<V>(s: Session<V>, t: Session<V>, l: int)
    requires
        s.faithful(),
        t.faithful(),
        s.state.windows == t.state.windows,
        0 <= l < s.state.windows.len(),
        s.past[l] == t.past[l],
    ensures
        s.state.windows[l] is None ==> s.reads(l, s.state.seq_len) == t.reads(l, t.state.seq_len),
        s.state.windows[l] is Some ==> s.stores[l] == t.stores[l],
{
    assert(s.holds(l, s.past[l], s.state.seq_len));
    assert(t.holds(l, t.past[l], t.state.seq_len));
}

} // verus!
