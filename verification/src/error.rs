use vstd::prelude::*;

verus! {

/// The part of an encoded chunk that a buffer ended in.
#[derive(Debug, Clone, Copy, PartialEq, Eq, Structural)]
pub enum Field {
    Length,
    Type,
    Data,
    Crc,
}

/// Why a type code or a chunk could not be built.
#[derive(Debug, Clone, Copy, PartialEq, Eq, Structural)]
pub enum ChunkError {
    /// The declared data length is 2^31 or more.
    LengthOverflow,
    /// The buffer holds fewer bytes than the named field needs.
    Truncated(Field),
    /// A type code holds this byte, which is no ASCII letter.
    InvalidTypeByte(u8),
    /// A type code made of letters only, but not of four of them.
    InvalidTypeLength,
    /// The checksum on the wire differs from the one computed over type and data.
    CrcMismatch { stored: u32, calculated: u32 },
}

/// Why a chunk stream could not be parsed or changed.
#[derive(Debug, Clone, Copy, PartialEq, Eq, Structural)]
pub enum PngError {
    /// The buffer does not start with the eight signature bytes.
    InvalidSignature,
    /// The chunk at this position in the stream (counted from zero) is malformed.
    Chunk { index: usize, error: ChunkError },
    /// The stream holds no chunk of the type asked for.
    ChunkNotFound,
}

} // verus!
