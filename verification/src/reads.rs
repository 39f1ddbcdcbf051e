//! Lists of tensors that are read one after the other.

use vstd::prelude::*;
use vstd::string::*;

use crate::catalog::{Demands, Need};
use crate::text::join2;

verus! {

/// A tensor to read: its name and its number of dimensions.
#[derive(Debug)]
pub struct Read {
    /// Name of the tensor.
    pub name: String,
    /// Dimensions.
    pub rank: usize,
}

/// The name and rank of a read.
pub open spec fn read_of(read: Read) -> (Seq<char>, int) {
    (read.name@, read.rank as int)
}

/// Tensors to read, in order.
#[derive(Debug)]
pub struct Reads {
    /// The reads.
    pub list: Vec<Read>,
}

impl View for Reads {
    type V = Seq<(Seq<char>, int)>;

    open spec fn view(&self) -> Seq<(Seq<char>, int)> {
        Seq::new(self.list@.len(), |i: int| read_of(self.list@[i]))
    }
}

/// `p` in front of every name.
pub open spec fn under(p: Seq<char>, names: Seq<(Seq<char>, int)>) -> Seq<(Seq<char>, int)> {
    Seq::new(names.len(), |i: int| (p + names[i].0, names[i].1))
}

/// Every tensor that is read must be there.
pub open spec fn read_needs(reads: Seq<(Seq<char>, int)>) -> Seq<Need> {
    Seq::new(reads.len(), |i: int| Need::Present { name: reads[i].0, rank: reads[i].1 })
}

impl Reads {
    /// Nothing to read.
    pub fn new() -> (reads: Self)
        ensures
            reads@ == Seq::<(Seq<char>, int)>::empty(),
    {
        let reads = Reads { list: Vec::new() };
        assert(reads@ =~= Seq::<(Seq<char>, int)>::empty());
        reads
    }

    /// Adds the tensor `p` followed by `suffix`.
    pub fn add_read(&mut self, p: &str, suffix: &str, rank: usize)
        ensures
            final(self)@ == old(self)@.push((p@ + suffix@, rank as int)),
            final(self).list@.len() == old(self).list@.len() + 1,
            final(self).list@.drop_last() == old(self).list@,
            final(self).list@.last().name@ == p@ + suffix@,
            final(self).list@.last().rank == rank,
    {
        let ghost before = self@;
        self.list.push(Read { name: join2(p, suffix), rank });
        assert(self.list@.drop_last() =~= old(self).list@);
        assert(self@ =~= before.push((p@ + suffix@, rank as int)));
    }

    /// States that every tensor that is read must be there.
    pub fn demand(&self, demands: &mut Demands)
        ensures
            final(demands)@ == old(demands)@ + read_needs(self@),
    {
        let ghost before = demands@;
        let mut i: usize = 0;
        assert(read_needs(self@).take(0) =~= Seq::empty());
        assert(before + read_needs(self@).take(0) =~= before);
        while i < self.list.len()
            invariant
                i <= self.list@.len(),
                demands@ == before + read_needs(self@).take(i as int),
            decreases self.list@.len() - i,
        {
            demands.present(self.list[i].name.clone(), self.list[i].rank);
            i = i + 1;
            assert(demands@ =~= before + read_needs(self@).take(i as int));
        }
        assert(read_needs(self@).take(i as int) =~= read_needs(self@));
    }
}

/// A list of reads is seen as it is: each tensor by its name and its number of
/// dimensions, in order.
pub proof fn law_reads_are_seen_as_listed(reads: Reads, i: int)
    requires
        0 <= i < reads.list@.len(),
    ensures
        reads@.len() == reads.list@.len(),
        reads@[i].0 == reads.list@[i].name@,
        reads@[i].1 == reads.list@[i].rank,
{
}

} // verus!
