//! Window functions: the smoothing applied to a frame before it is transformed.

use vstd::prelude::*;
use crate::bits::ONE;
use crate::sample::Sample;

verus! {

/// The window shapes on offer.
#[derive(Clone, Copy, Debug, PartialEq, Eq, Structural)]
pub enum Window {
    /// No attenuation: every coefficient is one.
    Rectangle,
    /// Raised cosine that reaches zero at both ends.
    Hann,
    /// Raised cosine that stops short of zero at both ends.
    Hamming,
}

impl Window {
    /// Whether the shape attenuates towards the ends of the frame.
    pub open spec fn tapers(&self) -> bool {
        !(*self is Rectangle)
    }

    /// The coefficients of a frame of `length` samples, where they are known
    /// without arithmetic: the rectangular window is `length` ones. A tapering
    /// shape needs its cosine formula evaluated and yields `None` here.
    pub fn generate(&self, length: usize) -> (r: Option<Vec<Sample>>)
        ensures
            self.tapers() <==> r.is_none(),
            !self.tapers() ==> r == Some(r.unwrap()) && r.unwrap()@ == Seq::new(
                length as nat,
                |i: int| ONE,
            ),
    {
        match self {
            Window::Rectangle => {
                let mut v: Vec<Sample> = Vec::new();
                let mut i: usize = 0;
                while i < length
                    invariant
                        i <= length,
                        v@ == Seq::new(i as nat, |k: int| ONE),
                    decreases length - i,
                {
                    v.push(ONE);
                    i += 1;
                    assert(v@ =~= Seq::new(i as nat, |k: int| ONE));
                }
                Some(v)
            },
            _ => None,
        }
    }
}

} // verus!
