//! UTF-8 string invariants for byte buffers provided by the `bytes` crate.
//!
//! The two container types, [`StrChunk`] and [`StrChunkMut`], wrap `Bytes`
//! and `BytesMut` respectively, adding the verified guarantee that their
//! contents are valid UTF-8.  [`StrChunk::extract_utf8`] incrementally
//! decodes a raw byte buffer, splitting off the longest valid UTF-8 prefix
//! and leaving an incomplete trailing sequence in place for the next read.

mod raw;

pub mod chunk;
pub mod chunk_mut;
pub mod split;
pub mod validate;

pub use crate::chunk::{ExtractUtf8Error, StrChunk, Utf8ValidityError};
pub use crate::chunk_mut::StrChunkMut;
pub use crate::split::{RangeError, StrRange, TakeRange};
