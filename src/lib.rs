//! A binary record format in the manner of PNG chunks: a four-byte type tag,
//! a length-prefixed payload and a CRC-32 trailer.

pub mod chunk;
pub mod chunk_type;
pub mod text;

pub use chunk::{Chunk, ChunkError, EncodingError};
pub use chunk_type::{ChunkType, ChunkTypeError};
