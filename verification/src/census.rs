//! How often each decision about a weight was made.

use vstd::prelude::*;
use vstd::string::*;

use crate::text::{decimal, decimal_text};

verus! {

/// One decision and how often it was made.
pub type Row = (Seq<char>, usize);

/// `rows` lists `outcome`.
pub open spec fn lists(rows: Seq<Row>, outcome: Seq<char>) -> bool {
    exists|i: int| 0 <= i < rows.len() && (#[trigger] rows[i]).0 == outcome
}

/// No decision is listed twice.
pub open spec fn distinct(rows: Seq<Row>) -> bool {
    forall|i: int, j: int|
        0 <= i < j < rows.len() ==> (#[trigger] rows[i]).0 != (#[trigger] rows[j]).0
}

/// One more; the largest number stays as it is.
pub open spec fn bumped(n: usize) -> usize {
    if n < usize::MAX {
        (n + 1) as usize
    } else {
        n
    }
}

/// The rows once `outcome` has been counted: its row has one more, or it gets a
/// row of its own at the end.
pub open spec fn counted(rows: Seq<Row>, outcome: Seq<char>) -> Seq<Row> {
    if lists(rows, outcome) {
        Seq::new(
            rows.len(),
            |i: int|
                if rows[i].0 == outcome {
                    (outcome, bumped(rows[i].1))
                } else {
                    rows[i]
                },
        )
    } else {
        rows.push((outcome, 1usize))
    }
}

/// `rows`, with `row` behind every row that was counted at least as often.
pub open spec fn placed(rows: Seq<Row>, row: Row) -> Seq<Row>
    decreases rows.len(),
{
    if rows.len() == 0 || rows.last().1 >= row.1 {
        rows.push(row)
    } else {
        placed(rows.drop_last(), row).push(rows.last())
    }
}

/// The rows, most common first; rows that were counted equally often keep their
/// order.
pub open spec fn ranked(rows: Seq<Row>) -> Seq<Row>
    decreases rows.len(),
{
    if rows.len() == 0 {
        Seq::empty()
    } else {
        placed(ranked(rows.drop_last()), rows.last())
    }
}

/// One row as a text.
pub open spec fn row_text(row: Row) -> Seq<char> {
    row.0 + "="@ + decimal(row.1 as int)
}

/// The rows as a text, with a comma and a space between them.
pub open spec fn rows_text(rows: Seq<Row>) -> Seq<char>
    decreases rows.len(),
{
    if rows.len() == 0 {
        Seq::empty()
    } else if rows.len() == 1 {
        row_text(rows[0])
    } else {
        rows_text(rows.drop_last()) + ", "@ + row_text(rows.last())
    }
}

/// A row of the census as it is stored.
pub open spec fn row_of(entry: (String, usize)) -> Row {
    (entry.0@, entry.1)
}

/// The decisions made so far.
pub struct QuantCensus {
    counts: Vec<(String, usize)>,
}

impl View for QuantCensus {
    type V = Seq<Row>;

    closed spec fn view(&self) -> Seq<Row> {
        Seq::new(self.counts@.len(), |i: int| row_of(self.counts@[i]))
    }
}

impl QuantCensus {
    /// No decision yet.
    pub fn new() -> (census: Self)
        ensures
            census@ == Seq::<Row>::empty(),
            distinct(census@),
    {
        let census = QuantCensus { counts: Vec::new() };
        assert(census@ =~= Seq::<Row>::empty());
        census
    }

    /// Counts a decision.
    pub fn record(&mut self, outcome: &str)
        requires
            distinct(old(self)@),
        ensures
            final(self)@ == counted(old(self)@, outcome@),
            distinct(final(self)@),
    {
        let ghost rows = self@;
        let wanted: String = outcome.to_owned();
        let mut i: usize = 0;
        while i < self.counts.len()
            invariant
                i <= self.counts@.len(),
                self@ == rows,
                rows == old(self)@,
                rows.len() == self.counts@.len(),
                distinct(rows),
                wanted@ == outcome@,
                forall|j: int| 0 <= j < i ==> (#[trigger] rows[j]).0 != outcome@,
            decreases self.counts@.len() - i,
        {
            assert(rows[i as int] == row_of(self.counts@[i as int]));
            if self.counts[i].0 == wanted {
                let n: usize = self.counts[i].1;
                let more: usize = if n < usize::MAX {
                    n + 1
                } else {
                    n
                };
                assert(lists(rows, outcome@));
                self.counts.set(i, (wanted, more));
                proof {
                    assert forall|j: int| 0 <= j < rows.len() implies self@[j] == counted(
                        rows,
                        outcome@,
                    )[j] by {
                        if j < i {
                            assert(rows[j].0 != rows[i as int].0);
                        } else if i < j {
                            assert(rows[i as int].0 != rows[j].0);
                        }
                        assert(self@[j] == row_of(self.counts@[j]));
                        if j != i {
                            assert(rows[j] == row_of(self.counts@[j]));
                        }
                    }
                    assert(self@ =~= counted(rows, outcome@));
                    lemma_counted_distinct(rows, outcome@);
                }
                return;
            }
            i = i + 1;
        }
        assert(!lists(rows, outcome@));
        self.counts.push((wanted, 1));
        proof {
            assert(self@ =~= counted(rows, outcome@));
            lemma_counted_distinct(rows, outcome@);
        }
    }
}

/// Counting keeps the decisions distinct.
proof fn lemma_counted_distinct(rows: Seq<Row>, outcome: Seq<char>)
    requires
        distinct(rows),
    ensures
        distinct(counted(rows, outcome)),
{
    let more = counted(rows, outcome);
    assert forall|i: int, j: int| 0 <= i < j < more.len() implies (#[trigger] more[i]).0 != (
    #[trigger] more[j]).0 by {
        if j < rows.len() {
            assert(rows[i].0 != rows[j].0);
        }
    }
}

/// The decisions so far, most common first, as one line: each decision, an
/// equals sign and its count.
pub fn quant_census(census: &QuantCensus) -> (text: String)
    ensures
        text@ == rows_text(ranked(census@)),
{
    let ghost rows = census@;
    let mut order: Vec<usize> = Vec::new();
    let mut i: usize = 0;
    proof {
        assert(rows.take(0) =~= Seq::empty());
        assert(in_order(rows, order@) =~= Seq::empty());
    }
    while i < census.counts.len()
        invariant
            rows == census@,
            rows.len() == census.counts@.len(),
            i <= rows.len(),
            forall|j: int| 0 <= j < order@.len() ==> (#[trigger] order@[j]) < rows.len(),
            order@.len() == i,
            in_order(rows, order@) == ranked(rows.take(i as int)),
        decreases rows.len() - i,
    {
        let mut p: usize = order.len();
        let ghost so_far = in_order(rows, order@);
        let ghost row = rows[i as int];
        assert(so_far.take(p as int) =~= so_far);
        assert(so_far.skip(p as int) =~= Seq::empty());
        assert(placed(so_far, row) =~= placed(so_far.take(p as int), row) + so_far.skip(
            p as int,
        ));
        while p > 0 && census.counts[order[p - 1]].1 < census.counts[i].1
            invariant
                rows == census@,
                rows.len() == census.counts@.len(),
                i < rows.len(),
                p <= order@.len(),
                forall|j: int| 0 <= j < order@.len() ==> (#[trigger] order@[j]) < rows.len(),
                so_far == in_order(rows, order@),
                row == rows[i as int],
                placed(so_far, row) == placed(so_far.take(p as int), row) + so_far.skip(p as int),
            decreases p,
        {
            proof {
                let head = so_far.take(p as int);
                assert(head.drop_last() =~= so_far.take(p - 1));
                assert(head.last() == so_far[p - 1]);
                assert(placed(so_far.take(p - 1), row).push(so_far[p - 1]) + so_far.skip(p as int)
                    =~= placed(so_far.take(p - 1), row) + so_far.skip(p - 1));
                assert(rows[order@[p - 1] as int] == row_of(
                    census.counts@[order@[p - 1] as int],
                ));
            }
            p = p - 1;
        }
        proof {
            if p > 0 {
                assert(rows[order@[p - 1] as int] == row_of(
                    census.counts@[order@[p - 1] as int],
                ));
                assert(so_far.take(p as int).last() == so_far[p - 1]);
            }
            assert(placed(so_far, row) =~= so_far.take(p as int).push(row) + so_far.skip(
                p as int,
            ));
        }
        order.insert(p, i);
        proof {
            assert(rows.take(i + 1).drop_last() =~= rows.take(i as int));
            assert(in_order(rows, order@) =~= so_far.take(p as int).push(row) + so_far.skip(
                p as int,
            ));
        }
        i = i + 1;
    }
    assert(rows.take(i as int) =~= rows);
    let ghost best = ranked(rows);
    let mut text: String = String::new();
    let mut n: usize = 0;
    assert(best.take(0) =~= Seq::empty());
    while n < order.len()
        invariant
            rows == census@,
            rows.len() == census.counts@.len(),
            best == in_order(rows, order@),
            forall|j: int| 0 <= j < order@.len() ==> (#[trigger] order@[j]) < rows.len(),
            n <= order@.len(),
            text@ == rows_text(best.take(n as int)),
        decreases order@.len() - n,
    {
        let at: usize = order[n];
        proof {
            assert(best.take(n + 1).drop_last() =~= best.take(n as int));
            assert(best.take(n + 1).last() == rows[at as int]);
            assert(rows[at as int] == row_of(census.counts@[at as int]));
        }
        if n > 0 {
            text.append(", ");
        }
        text.append(census.counts[at].0.as_str());
        text.append("=");
        let count: String = decimal_text(census.counts[at].1);
        text.append(count.as_str());
        proof {
            if n == 0 {
                assert(best.take(1)[0] == rows[at as int]);
                assert(text@ =~= row_text(rows[at as int]));
            } else {
                assert(text@ =~= rows_text(best.take(n as int)) + ", "@ + row_text(
                    rows[at as int],
                ));
            }
        }
        n = n + 1;
    }
    assert(best.take(n as int) =~= best);
    text
}

/// The rows at the places that `order` lists.
spec fn in_order(rows: Seq<Row>, order: Seq<usize>) -> Seq<Row> {
    Seq::new(order.len(), |i: int| rows[order[i] as int])
}

/// No row comes before one that was counted more often.
pub proof fn law_census_is_ranked(rows: Seq<Row>)
    ensures
        ranked(rows).len() == rows.len(),
        forall|i: int, j: int|
            0 <= i < j < ranked(rows).len() ==> (#[trigger] ranked(rows)[i]).1 >= (
            #[trigger] ranked(rows)[j]).1,
    decreases rows.len(),
{
    if rows.len() > 0 {
        law_census_is_ranked(rows.drop_last());
        lemma_placed_is_ranked(ranked(rows.drop_last()), rows.last());
    }
}

/// Placing a row keeps the order.
proof fn lemma_placed_is_ranked(rows: Seq<Row>, row: Row)
    requires
        forall|i: int, j: int|
            0 <= i < j < rows.len() ==> (#[trigger] rows[i]).1 >= (#[trigger] rows[j]).1,
    ensures
        placed(rows, row).len() == rows.len() + 1,
        forall|i: int, j: int|
            0 <= i < j < placed(rows, row).len() ==> (#[trigger] placed(rows, row)[i]).1 >= (
            #[trigger] placed(rows, row)[j]).1,
        forall|i: int|
            0 <= i < placed(rows, row).len() ==> (#[trigger] placed(rows, row)[i]).1 >= row.1
                || placed(rows, row)[i].1 >= rows.last().1,
    decreases rows.len(),
{
    if rows.len() > 0 && rows.last().1 < row.1 {
        lemma_placed_is_ranked(rows.drop_last(), row);
        let less = placed(rows.drop_last(), row);
        assert(placed(rows, row) =~= less.push(rows.last()));
        if rows.len() > 1 {
            assert(rows[rows.len() - 2].1 >= rows[rows.len() - 1].1);
        }
    }
}

/// Rows that were counted equally often keep their order, and none is lost or
/// made up: for every count, the rows with that count are the same before and
/// after ranking.
pub proof fn law_census_ranking_is_stable(rows: Seq<Row>, count: usize)
    ensures
        ranked(rows).filter(|row: Row| row.1 == count) == rows.filter(|row: Row| row.1 == count),
    decreases rows.len(),
{
    let same = |row: Row| row.1 == count;
    reveal(Seq::filter);
    if rows.len() > 0 {
        law_census_ranking_is_stable(rows.drop_last(), count);
        law_census_is_ranked(rows.drop_last());
        lemma_placed_filters(ranked(rows.drop_last()), rows.last(), count);
        assert(rows.drop_last().push(rows.last()) =~= rows);
    }
}

/// Placing a row among ranked rows puts it behind those with the same count.
proof fn lemma_placed_filters(rows: Seq<Row>, row: Row, count: usize)
    requires
        forall|i: int, j: int|
            0 <= i < j < rows.len() ==> (#[trigger] rows[i]).1 >= (#[trigger] rows[j]).1,
    ensures
        placed(rows, row).filter(|r: Row| r.1 == count) == rows.filter(|r: Row| r.1 == count) + (
        if row.1 == count {
            seq![row]
        } else {
            Seq::empty()
        }),
    decreases rows.len(),
{
    let same = |r: Row| r.1 == count;
    reveal(Seq::filter);
    if rows.len() == 0 || rows.last().1 >= row.1 {
        assert(rows.push(row).drop_last() =~= rows);
        if row.1 == count {
            assert(placed(rows, row).filter(same) =~= rows.filter(same) + seq![row]);
        } else {
            assert(placed(rows, row).filter(same) =~= rows.filter(same) + Seq::empty());
        }
    } else {
        let less = placed(rows.drop_last(), row);
        lemma_placed_filters(rows.drop_last(), row, count);
        assert(less.push(rows.last()).drop_last() =~= less);
        assert(placed(rows, row).filter(same) =~= rows.filter(same) + (if row.1 == count {
            seq![row]
        } else {
            Seq::empty()
        }));
    }
}

/// Counting a decision adds one to its count and changes no other; one that is new
/// is listed last, with a count of one. The largest number stays as it is.
pub proof fn law_counting_adds_one(rows: Seq<Row>, outcome: Seq<char>, i: int)
    requires
        0 <= i < rows.len(),
    ensures
        ({
            let more = counted(rows, outcome);
            &&& more[i].0 == rows[i].0
            &&& rows[i].0 != outcome ==> more[i].1 == rows[i].1
            &&& rows[i].0 == outcome && rows[i].1 < usize::MAX ==> more[i].1 == rows[i].1 + 1
            &&& rows[i].0 == outcome && rows[i].1 == usize::MAX ==> more[i].1 == usize::MAX
            &&& rows[i].0 == outcome ==> more.len() == rows.len()
            &&& more.len() > rows.len() ==> more.len() == rows.len() + 1 && more.last().0 == outcome
                && more.last().1 == 1
        }),
{
}

/// A decision that has not been made before is counted once.
pub proof fn law_first_count_is_one(rows: Seq<Row>, outcome: Seq<char>)
    requires
        forall|i: int| 0 <= i < rows.len() ==> (#[trigger] rows[i]).0 != outcome,
    ensures
        counted(rows, outcome) == rows + seq![(outcome, 1usize)],
{
    assert(counted(rows, outcome) =~= rows + seq![(outcome, 1usize)]);
}

/// A line of the census is each decision, an equals sign and its count, with a
/// comma and a space in front of each but the first.
pub proof fn law_census_line(rows: Seq<Row>, row: Row)
    ensures
        rows_text(Seq::<Row>::empty()).len() == 0,
        rows_text(seq![row]) == row.0 + "="@ + decimal(row.1 as int),
        rows.len() > 0 ==> rows_text(rows.push(row)) == rows_text(rows) + ", "@ + (row.0 + "="@
            + decimal(row.1 as int)),
{
    if rows.len() > 0 {
        assert(rows.push(row).drop_last() =~= rows);
    }
}

} // verus!
