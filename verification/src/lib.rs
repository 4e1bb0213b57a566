//! A codec for PNG-style chunk streams: four-byte type codes with their flag
//! bits, length-prefixed and CRC-protected chunks, and the ordered container
//! that parses from and serialises to a byte buffer.

pub mod checksum;
pub mod chunk;
pub mod chunk_type;
pub mod error;
pub mod png;
pub mod text;
