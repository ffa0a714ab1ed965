use vstd::prelude::*;

verus! {

/// Why a decode stopped. Every error ends the decode: nothing is returned
/// besides it.
#[derive(Debug, Clone, Copy, PartialEq, Eq, Hash, Structural)]
pub enum DecodeError {
    /// The first eight bytes are not the block's fixed fingerprint.
    HeaderInvalid,
    /// The byte source ran dry before the block was complete.
    UnexpectedEndOfData,
    /// The first eighteen-byte slot holds no timing.
    MissingPreferredTiming,
    /// A blanking interval is shorter than its front porch and sync pulse
    /// together, so no back porch exists.
    MalformedTimingGeometry,
    /// A terminator, padding or guard byte of a descriptor is not what the
    /// format demands.
    MalformedDescriptor,
    /// The byte source reported a failure.
    SourceFailure,
}

impl DecodeError {
    /// True of the two errors that the byte source decides: it failed, or it
    /// had no more bytes.
    pub open spec fn from_source(self) -> bool {
        self == DecodeError::SourceFailure || self == DecodeError::UnexpectedEndOfData
    }

    /// The sentence a person reads for this error.
    pub open spec fn spec_message(self) -> Seq<char> {
        match self {
            DecodeError::HeaderInvalid => "Invalid header."@,
            DecodeError::UnexpectedEndOfData => "Unexpectedly out of data!"@,
            DecodeError::MissingPreferredTiming => "Expected detailed timing block."@,
            DecodeError::MalformedTimingGeometry => "Blanking shorter than front porch and sync pulse."@,
            DecodeError::MalformedDescriptor => "Unexpected byte in monitor descriptor."@,
            DecodeError::SourceFailure => "Error reading data!"@,
        }
    }

    pub fn message(&self) -> (text: &'static str)
        ensures
            text@ == self.spec_message(),
    {
        match self {
            DecodeError::HeaderInvalid => "Invalid header.",
            DecodeError::UnexpectedEndOfData => "Unexpectedly out of data!",
            DecodeError::MissingPreferredTiming => "Expected detailed timing block.",
            DecodeError::MalformedTimingGeometry => "Blanking shorter than front porch and sync pulse.",
            DecodeError::MalformedDescriptor => "Unexpected byte in monitor descriptor.",
            DecodeError::SourceFailure => "Error reading data!",
        }
    }
}

/// How a result read from a byte source stands to what the bytes taken
/// decode to. They are equal, with one exception: where the source failed,
/// the bytes taken so far were too few to decide anything.
pub open spec fn agrees<V>(res: Result<V, DecodeError>, decoded: Result<V, DecodeError>) -> bool {
    if res == Err::<V, DecodeError>(DecodeError::SourceFailure) {
        decoded == Err::<V, DecodeError>(DecodeError::UnexpectedEndOfData)
    } else {
        decoded == res
    }
}

/// How an error that came back stands to what the bytes taken decode to:
/// the decoding fails with that very error, but where the source failed;
/// then the bytes taken were too few to decide anything.
pub open spec fn fails_as<V>(e: DecodeError, decoded: Result<V, DecodeError>) -> bool {
    if e == DecodeError::SourceFailure {
        decoded == Err::<V, DecodeError>(DecodeError::UnexpectedEndOfData)
    } else {
        decoded == Err::<V, DecodeError>(e)
    }
}

/// True of a decoding that decides nothing yet, for want of bytes.
pub open spec fn unsettled<V>(decoded: Result<V, DecodeError>) -> bool {
    decoded == Err::<V, DecodeError>(DecodeError::UnexpectedEndOfData)
}

/// `Ok` where the condition holds, and the given error where it does not.
pub fn ensure(pred: bool, error: DecodeError) -> (res: Result<(), DecodeError>)
    ensures
        res == (if pred { Ok::<(), DecodeError>(()) } else { Err::<(), DecodeError>(error) }),
{
    if pred {
        Ok(())
    } else {
        Err(error)
    }
}

} // verus!
