use vstd::prelude::*;

verus! {

/// The ways in which configuring or running an analyzer can fail.
#[derive(Clone, Copy, Debug, PartialEq, Eq, Structural)]
pub enum Error {
    /// The sampling rate is not strictly positive.
    InvalidSamplingRate,
    /// The bucket count is zero, or the cutoffs are negative or out of order.
    InvalidRange,
    /// Fewer samples were supplied than one transform consumes.
    NotEnoughSamples,
}

impl Error {
    /// A short human-readable description.
    pub fn message(&self) -> (r: String)
        ensures
            r@ == self.message_spec(),
    {
        match self {
            Error::InvalidSamplingRate => {
                proof { reveal_strlit("sampling rate must be positive"); }
                "sampling rate must be positive".to_string()
            },
            Error::InvalidRange => {
                proof { reveal_strlit("invalid frequency range"); }
                "invalid frequency range".to_string()
            },
            Error::NotEnoughSamples => {
                proof { reveal_strlit("not enough samples"); }
                "not enough samples".to_string()
            },
        }
    }

    pub open spec fn message_spec(&self) -> Seq<char> {
        match self {
            Error::InvalidSamplingRate => "sampling rate must be positive"@,
            Error::InvalidRange => "invalid frequency range"@,
            Error::NotEnoughSamples => "not enough samples"@,
        }
    }
}

} // verus!
