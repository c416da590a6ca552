//! Integer reads as methods of the source.
use vstd::prelude::*;

use crate::codec::ByteOrder;
use crate::read_bytes::{read_outcome, ReadBytes};
use crate::source::{IoError, Source};

verus! {

/// Extends every source with integer reads in a chosen byte order.
pub trait ReadExt: Source + Sized {
    /// Reads an integer as big endian, consuming its bytes.
    fn read_be_bytes<B: ReadBytes>(&mut self) -> (r: Result<B, IoError>)
        ensures
            final(self).infallible() == old(self).infallible(),
            read_outcome(*old(self), *final(self), ByteOrder::Big, r),
    ;

    /// Reads an integer as little endian, consuming its bytes.
    fn read_le_bytes<B: ReadBytes>(&mut self) -> (r: Result<B, IoError>)
        ensures
            final(self).infallible() == old(self).infallible(),
            read_outcome(*old(self), *final(self), ByteOrder::Little, r),
    ;

    /// Reads an integer as native endianness, consuming its bytes.
    fn read_ne_bytes<B: ReadBytes>(&mut self) -> (r: Result<B, IoError>)
        ensures
            final(self).infallible() == old(self).infallible(),
            read_outcome(*old(self), *final(self), ByteOrder::Native, r),
    ;
}

impl<S: Source> ReadExt for S {
    fn read_be_bytes<B: ReadBytes>(&mut self) -> (r: Result<B, IoError>) {
        B::read_be_bytes(self)
    }

    fn read_le_bytes<B: ReadBytes>(&mut self) -> (r: Result<B, IoError>) {
        B::read_le_bytes(self)
    }

    fn read_ne_bytes<B: ReadBytes>(&mut self) -> (r: Result<B, IoError>) {
        B::read_ne_bytes(self)
    }
}

} // verus!
