//! Reading and writing the metadata blocks of FLAC streams.

pub use block::{Block, BlockType};
pub use error::{Error, ErrorKind, Result};
pub use tag::Tag;

/// Metadata block types and their byte layouts.
pub mod block;
/// Errors of metadata operations.
pub mod error;
/// The tag container.
pub mod tag;
/// Fixed-width integer encoding helpers.
pub mod util;

mod text;
