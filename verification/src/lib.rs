//! A codec for PNG-style chunks: a four-byte type code, an opaque payload and
//! a CRC-32 over both, framed by a big-endian length and checksum.

pub mod checksum;
pub mod chunk;
pub mod chunk_type;
pub mod error;
pub mod text;
pub mod wire;
