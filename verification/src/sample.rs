//! A fixed-capacity sliding window over the most recent samples of one channel.

use std::collections::VecDeque;
use vstd::prelude::*;

verus! {

/// One amplitude reading, as the bit pattern of a single-precision value.
pub type Sample = u32;

/// What a buffer holding `held` contains after `new` has been pushed: nothing
/// changes when it has no room at all; otherwise the last `held.len()` items of
/// `held` followed by `new`.
pub open spec fn slide(held: Seq<Sample>, new: Seq<Sample>) -> Seq<Sample> {
    if held.len() == 0 {
        held
    } else {
        (held + new).subrange(new.len() as int, (held.len() + new.len()) as int)
    }
}

/// The most recent samples of one channel, oldest first.
pub struct SampleBuffer {
    ring: VecDeque<Sample>,
}

impl SampleBuffer {
    /// The samples held, oldest first.
    pub closed spec fn view(&self) -> Seq<Sample> {
        self.ring@
    }

    /// A buffer of `size` samples, all of them zero.
    pub fn new(size: usize) -> (r: Self)
        ensures
            r@ == Seq::new(size as nat, |i: int| 0u32),
    {
        let mut ring: VecDeque<Sample> = VecDeque::new();
        let mut i: usize = 0;
        while i < size
            invariant
                i <= size,
                ring@ == Seq::new(i as nat, |k: int| 0u32),
            decreases size - i,
        {
            ring.push_back(0);
            i += 1;
            assert(ring@ =~= Seq::new(i as nat, |k: int| 0u32));
        }
        SampleBuffer { ring }
    }

    /// Appends `new` in order, dropping one of the oldest samples for each.
    pub fn push(&mut self, new: &[Sample])
        ensures
            final(self)@ == slide(old(self)@, new@),
            final(self)@.len() == old(self)@.len(),
    {
        if self.ring.len() == 0 {
            return ;
        }
        let ghost held = self.ring@;
        let mut i: usize = 0;
        while i < new.len()
            invariant
                i <= new@.len(),
                held.len() > 0,
                self.ring@ == (held + new@.subrange(0, i as int)).subrange(
                    i as int,
                    held.len() + i,
                ),
            decreases new@.len() - i,
        {
            let _ = self.ring.pop_front();
            self.ring.push_back(new[i]);
            i += 1;
            assert(self.ring@ =~= (held + new@.subrange(0, i as int)).subrange(
                i as int,
                held.len() + i,
            ));
        }
        assert(new@.subrange(0, i as int) =~= new@);
    }

    /// The number of samples held: the size the buffer was made with.
    pub fn len(&self) -> (n: usize)
        ensures
            n == self@.len(),
    {
        self.ring.len()
    }

    /// The sample at `index`, counted from the oldest.
    pub fn get(&self, index: usize) -> (r: Option<Sample>)
        ensures
            r == (if index < self@.len() {
                Some(self@[index as int])
            } else {
                None
            }),
    {
        if index < self.ring.len() {
            Some(self.ring[index])
        } else {
            None
        }
    }

    /// A copy of the samples held, oldest first.
    pub fn to_vec(&self) -> (v: Vec<Sample>)
        ensures
            v@ == self@,
    {
        let mut v: Vec<Sample> = Vec::new();
        let mut i: usize = 0;
        while i < self.ring.len()
            invariant
                i <= self.ring@.len(),
                v@ == self.ring@.subrange(0, i as int),
            decreases self.ring@.len() - i,
        {
            v.push(self.ring[i]);
            i += 1;
            assert(v@ =~= self.ring@.subrange(0, i as int));
        }
        assert(self.ring@.subrange(0, i as int) =~= self.ring@);
        v
    }
}

/// Pushing more samples than the buffer holds leaves exactly the last of them;
/// pushing fewer keeps the newest of the old ones in front.
pub proof fn lemma_slide(held: Seq<Sample>, new: Seq<Sample>)
    requires
        held.len() > 0,
    ensures
        slide(held, new).len() == held.len(),
        new.len() >= held.len() ==> slide(held, new) == new.subrange(
            new.len() - held.len(),
            new.len() as int,
        ),
        new.len() <= held.len() ==> slide(held, new) == held.subrange(
            new.len() as int,
            held.len() as int,
        ) + new,
{
    if new.len() >= held.len() {
        assert(slide(held, new) =~= new.subrange(new.len() - held.len(), new.len() as int));
    }
    if new.len() <= held.len() {
        assert(slide(held, new) =~= held.subrange(new.len() as int, held.len() as int) + new);
    }
}

} // verus!
