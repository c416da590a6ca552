//! The traits and types needed to use the library, to import in one go.
pub use crate::codec::{ByteOrder, FixedInt};
pub use crate::read_bytes::ReadBytes;
pub use crate::read_ext::ReadExt;
pub use crate::scan::BufReadExt;
pub use crate::source::{BufSource, Cursor, IoError, Sink, Source};
pub use crate::write_bytes::WriteBytes;
pub use crate::write_ext::WriteExt;
