use vstd::prelude::*;

verus! {

/// The state of a running loop: the next index to hand out, the distance
/// between two indices, and the last index that may be handed out.
#[derive(Clone, Copy, Debug, PartialEq, Eq, Structural)]
pub struct IndexedCounter {
    pub index: i32,
    pub step: i32,
    pub end: i32,
}

/// The indices a counter at `index` hands out, one per round, until its
/// index passes the inclusive `end`; for a positive step.
pub open spec fn indices(index: int, step: int, end: int) -> Seq<int>
    decreases (if step > 0 && index <= end { end - index + 1 } else { 0 }),
{
    if step > 0 && index <= end {
        seq![index] + indices(index + step, step, end)
    } else {
        Seq::empty()
    }
}

impl IndexedCounter {
    pub fn new(index: i32, step: i32, end: i32) -> (r: Self)
        ensures
            r == (IndexedCounter { index, step, end }),
    {
        IndexedCounter { index, step, end }
    }

    /// Moves the index on by one step.
    pub fn increment(&mut self)
        requires
            i32::MIN <= old(self).index + old(self).step <= i32::MAX,
        ensures
            final(self).index == old(self).index + old(self).step,
            final(self).step == old(self).step,
            final(self).end == old(self).end,
    {
        self.index = self.index + self.step;
    }

    pub fn has_next(&self) -> (r: bool)
        ensures
            r == (self.index < self.end),
    {
        self.index < self.end
    }

    /// The loop is over once the index has passed the inclusive end.
    pub fn is_done(&self) -> (r: bool)
        ensures
            r == (self.index > self.end),
    {
        self.index > self.end
    }
}

} // verus!
