//! Decoder for the chunk-based animated-sprite container format: a header,
//! then frames, each holding typed, length-prefixed chunks.

pub mod bytes;
pub mod chunk;
pub mod document;
pub mod error;
pub mod frame;
pub mod pixel;

pub use bytes::Bounded;
pub use document::{Document, FormattedDocument};
pub use chunk::{Cel, CelData, Chunk, ColorEntry, FrameLoop, FrameTag};
pub use error::DecodeError;
pub use frame::Frame;
pub use pixel::{read_pixels, Format};
