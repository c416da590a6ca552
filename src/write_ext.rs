//! Integer writes as methods of the sink.
use vstd::prelude::*;

use crate::codec::ByteOrder;
use crate::source::{IoError, Sink};
use crate::write_bytes::{write_outcome, WriteBytes};

verus! {

/// Extends every sink with integer writes in a chosen byte order.
pub trait WriteExt: Sink + Sized {
    /// Writes `num` as big endian and returns the number of bytes written.
    fn write_be<B: WriteBytes>(&mut self, num: B) -> (r: Result<usize, IoError>)
        ensures
            final(self).accepts_all() == old(self).accepts_all(),
            write_outcome(num, *old(self), *final(self), ByteOrder::Big, r),
    ;

    /// Writes `num` as little endian and returns the number of bytes written.
    fn write_le<B: WriteBytes>(&mut self, num: B) -> (r: Result<usize, IoError>)
        ensures
            final(self).accepts_all() == old(self).accepts_all(),
            write_outcome(num, *old(self), *final(self), ByteOrder::Little, r),
    ;

    /// Writes `num` as native endianness and returns the number of bytes written.
    fn write_ne<B: WriteBytes>(&mut self, num: B) -> (r: Result<usize, IoError>)
        ensures
            final(self).accepts_all() == old(self).accepts_all(),
            write_outcome(num, *old(self), *final(self), ByteOrder::Native, r),
    ;
}

impl<S: Sink> WriteExt for S {
    fn write_be<B: WriteBytes>(&mut self, num: B) -> (r: Result<usize, IoError>) {
        num.write_be_bytes(self)
    }

    fn write_le<B: WriteBytes>(&mut self, num: B) -> (r: Result<usize, IoError>) {
        num.write_le_bytes(self)
    }

    fn write_ne<B: WriteBytes>(&mut self, num: B) -> (r: Result<usize, IoError>) {
        num.write_ne_bytes(self)
    }
}

} // verus!
