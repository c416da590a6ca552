//! Streaming parser extensions for buffered byte sources.
//!
//! The library separates looking at bytes from consuming them: every
//! delimiter or predicate driven read comes in a consuming flavour and a
//! peek-only `fill_` flavour. On top of that sits a codec for fixed-width
//! integers in big, little or native byte order.
pub mod codec;
pub mod prelude;
pub mod read_bytes;
pub mod read_ext;
pub mod scan;
pub mod source;
pub mod write_bytes;
pub mod write_ext;

pub use codec::{ByteOrder, FixedInt};
pub use read_bytes::ReadBytes;
pub use read_ext::ReadExt;
pub use scan::BufReadExt;
pub use source::{BufSource, Cursor, IoError, Sink, Source};
pub use write_bytes::WriteBytes;
pub use write_ext::WriteExt;
