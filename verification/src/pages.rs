//! The free-page allocator: a stack of physical page ids.

use vstd::prelude::*;

verus! {

/// The ids `from..to` in the order in which a stack must hold them for the
/// lowest to come off first.
pub open spec fn descending(from: int, to: int) -> Seq<usize> {
    Seq::new(
        if from <= to {
            (to - from) as nat
        } else {
            0
        },
        |i: int| (to - 1 - i) as usize,
    )
}

/// A stack of free physical page ids.
#[derive(Debug)]
pub struct PageAllocator {
    free: Vec<usize>,
}

impl View for PageAllocator {
    type V = Seq<usize>;

    closed spec fn view(&self) -> Seq<usize> {
        self.free@
    }
}

impl PageAllocator {
    /// All ids below `num_pages` are free, and page 0 is handed out first.
    pub fn new(num_pages: usize) -> (allocator: Self)
        ensures
            allocator@ == descending(0, num_pages as int),
    {
        let mut allocator = PageAllocator { free: Vec::new() };
        allocator.grow(0, num_pages);
        assert(Seq::<usize>::empty() + descending(0, num_pages as int) =~= descending(
            0,
            num_pages as int,
        ));
        allocator
    }

    /// Takes the id on top of the stack.
    pub fn alloc_page(&mut self) -> (page: Option<usize>)
        ensures
            old(self)@.len() == 0 ==> page is None && final(self)@ == old(self)@,
            old(self)@.len() > 0 ==> page == Some(old(self)@.last()) && final(self)@
                == old(self)@.drop_last(),
    {
        self.free.pop()
    }

    /// Puts `id` on top of the stack.
    pub fn free_page(&mut self, id: usize)
        ensures
            final(self)@ == old(self)@.push(id),
    {
        self.free.push(id);
    }

    /// Number of free ids.
    pub fn num_free(&self) -> (count: usize)
        ensures
            count == self@.len(),
    {
        self.free.len()
    }

    /// Adds the ids `from..to` to the stack, the lowest on top.
    pub fn grow(&mut self, from: usize, to: usize)
        ensures
            final(self)@ == old(self)@ + descending(from as int, to as int),
    {
        let ghost start = self.free@;
        let mut next: usize = to;
        while next > from
            invariant
                from <= next <= to || next == to,
                self.free@ == start + descending(next as int, to as int),
            decreases next,
        {
            next = next - 1;
            self.free.push(next);
            assert(self.free@ =~= start + descending(next as int, to as int));
        }
        assert(descending(next as int, to as int) =~= descending(from as int, to as int));
    }

    /// Starts over with all ids below `num_pages` free.
    pub fn reset(&mut self, num_pages: usize)
        ensures
            final(self)@ == descending(0, num_pages as int),
    {
        *self = PageAllocator::new(num_pages);
    }
}

/// What is freed last is handed out first, and handing it out restores the
/// stack.
pub proof fn law_last_freed_first_handed_out(free: Seq<usize>, id: usize)
    ensures
        free.push(id).last() == id,
        free.push(id).drop_last() == free,
{
    assert(free.push(id).drop_last() =~= free);
}

/// A fresh allocator hands out the ids in ascending order: after `taken`
/// calls the next id is `taken`, until all `num_pages` are gone.
pub proof fn law_fresh_ids_ascend(num_pages: usize, taken: int)
    requires
        0 <= taken <= num_pages,
    ensures
        descending(0, num_pages as int).take(num_pages - taken) == descending(
            taken,
            num_pages as int,
        ),
        taken < num_pages ==> descending(taken, num_pages as int).last() == taken,
        taken == num_pages ==> descending(taken, num_pages as int).len() == 0,
{
    assert(descending(0, num_pages as int).take(num_pages - taken) =~= descending(
        taken,
        num_pages as int,
    ));
}

} // verus!
