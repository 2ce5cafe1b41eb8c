//! Errors met while decoding a chunk.
use vstd::prelude::*;

verus! {

/// Why a chunk could not be decoded.
#[derive(Clone, Copy, Debug, PartialEq, Eq, Structural)]
pub enum ChunkError {
    /// The stream ended before the field was complete.
    Truncated,
    /// The first four bytes, read big-endian, are not the chunk signature.
    BadMagic(u32),
    /// The header names a version other than the supported one.
    BadVersion(u8),
    /// A constant record starts with an unknown tag byte.
    UnknownConstant(u8),
    /// An instruction word holds an unknown opcode number.
    UnknownOpcode(u32),
}

} // verus!
