use vstd::prelude::*;

verus! {

/// Why a decode or an extraction did not go through.
#[derive(Debug, Clone, Copy, PartialEq, Eq)]
pub enum PfsError {
    /// A fixed magic tag is not where the layout puts it.
    MalformedMagic,
    /// The buffer ends before a fixed field or a declared size is complete.
    InsufficientLength,
    /// A compressed section's payload is not a valid zlib stream.
    DecompressionFailure,
    /// A section of a nested container does not hold a chunk record.
    ChunkDecodeFailure,
    /// Containers are nested deeper than the caller allowed.
    NestingTooDeep,
}

} // verus!
