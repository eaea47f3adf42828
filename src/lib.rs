//! Parsing and writing of RIFF/WAVE audio buffers.
//!
//! [`Wav::from_bytes`] parses a buffer into its format, its samples and the other
//! records it holds; [`Wav::to_bytes`] writes such a document back. [`wave::Wave`]
//! reads the same buffers with `LIST` records opened into a tree.
pub mod chunk;
pub mod data;
pub mod error;
pub mod fmt;
mod le;
pub mod parsing;
pub mod wav;
pub mod wave;

pub use chunk::{parse_chunks, Chunk, ChunkTag};
pub use data::Data;
pub use error::Error;
pub use fmt::Fmt;
pub use wav::Wav;
