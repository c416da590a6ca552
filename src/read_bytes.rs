//! Reading fixed-width integers from byte sources.
use vstd::prelude::*;

use crate::codec::{decodes_to, fill_bits, lemma_byte_bounds, read_bits, to_signed_exec, ByteOrder, FixedInt};
use crate::source::{exact_read_error, BufSource, IoError, Source};

verus! {

/// The outcome of decoding a `T` in the given order from the front of the
/// bytes that a source had remaining `before` the call, which left it as it
/// is `after`: on success enough bytes remained and the value is what the
/// first of them hold; otherwise the error is one that an exact read of the
/// value's width may end with.
pub open spec fn decode_outcome<T: FixedInt, R: Source>(
    before: R,
    after: R,
    order: ByteOrder,
    r: Result<T, IoError>,
) -> bool {
    let rem = before.remaining();
    &&& (before.infallible() ==> (r is Ok <==> T::width() <= rem.len()))
    &&& match r {
        Ok(v) => {
            &&& T::width() <= rem.len()
            &&& decodes_to(rem.take(T::width() as int), order, T::signed(), v.value())
        },
        Err(e) => exact_read_error(e, rem.len(), T::width(), before.infallible(), after.reported()),
    }
}

/// As `decode_outcome`, where a success also consumed the value's bytes.
pub open spec fn read_outcome<T: FixedInt, R: Source>(
    before: R,
    after: R,
    order: ByteOrder,
    r: Result<T, IoError>,
) -> bool {
    &&& decode_outcome(before, after, order, r)
    &&& (r is Ok ==> after.remaining() == before.remaining().skip(T::width() as int))
}

/// Reads integers from sources, in a chosen byte order.
pub trait ReadBytes: FixedInt {
    /// Reads a value as big endian, consuming its bytes.
    fn read_be_bytes<R: Source>(reader: &mut R) -> (r: Result<Self, IoError>)
        ensures
            final(reader).infallible() == old(reader).infallible(),
            read_outcome(*old(reader), *final(reader), ByteOrder::Big, r),
    ;

    /// Reads a value as little endian, consuming its bytes.
    fn read_le_bytes<R: Source>(reader: &mut R) -> (r: Result<Self, IoError>)
        ensures
            final(reader).infallible() == old(reader).infallible(),
            read_outcome(*old(reader), *final(reader), ByteOrder::Little, r),
    ;

    /// Reads a value as native endianness, consuming its bytes.
    fn read_ne_bytes<R: Source>(reader: &mut R) -> (r: Result<Self, IoError>)
        ensures
            final(reader).infallible() == old(reader).infallible(),
            read_outcome(*old(reader), *final(reader), ByteOrder::Native, r),
    ;

    /// Looks at a value as big endian, consuming nothing.
    fn fill_be_bytes<R: BufSource>(reader: &mut R) -> (r: Result<Self, IoError>)
        ensures
            final(reader).remaining() == old(reader).remaining(),
            final(reader).infallible() == old(reader).infallible(),
            decode_outcome(*old(reader), *final(reader), ByteOrder::Big, r),
    ;

    /// Looks at a value as little endian, consuming nothing.
    fn fill_le_bytes<R: BufSource>(reader: &mut R) -> (r: Result<Self, IoError>)
        ensures
            final(reader).remaining() == old(reader).remaining(),
            final(reader).infallible() == old(reader).infallible(),
            decode_outcome(*old(reader), *final(reader), ByteOrder::Little, r),
    ;

    /// Looks at a value as native endianness, consuming nothing.
    fn fill_ne_bytes<R: BufSource>(reader: &mut R) -> (r: Result<Self, IoError>)
        ensures
            final(reader).remaining() == old(reader).remaining(),
            final(reader).infallible() == old(reader).infallible(),
            decode_outcome(*old(reader), *final(reader), ByteOrder::Native, r),
    ;
}

impl ReadBytes for u8 {
    fn read_be_bytes<R: Source>(reader: &mut R) -> (r: Result<u8, IoError>) {
        proof {
            lemma_byte_bounds();
        }
        let n: usize = 1;
        match read_bits(reader, n, ByteOrder::Big) {
            Ok(u) => Ok(u as u8),
            Err(e) => Err(e),
        }
    }

    fn read_le_bytes<R: Source>(reader: &mut R) -> (r: Result<u8, IoError>) {
        proof {
            lemma_byte_bounds();
        }
        let n: usize = 1;
        match read_bits(reader, n, ByteOrder::Little) {
            Ok(u) => Ok(u as u8),
            Err(e) => Err(e),
        }
    }

    fn read_ne_bytes<R: Source>(reader: &mut R) -> (r: Result<u8, IoError>) {
        proof {
            lemma_byte_bounds();
        }
        let n: usize = 1;
        match read_bits(reader, n, ByteOrder::Native) {
            Ok(u) => Ok(u as u8),
            Err(e) => Err(e),
        }
    }

    fn fill_be_bytes<R: BufSource>(reader: &mut R) -> (r: Result<u8, IoError>) {
        proof {
            lemma_byte_bounds();
        }
        let n: usize = 1;
        match fill_bits(reader, n, ByteOrder::Big) {
            Ok(u) => Ok(u as u8),
            Err(e) => Err(e),
        }
    }

    fn fill_le_bytes<R: BufSource>(reader: &mut R) -> (r: Result<u8, IoError>) {
        proof {
            lemma_byte_bounds();
        }
        let n: usize = 1;
        match fill_bits(reader, n, ByteOrder::Little) {
            Ok(u) => Ok(u as u8),
            Err(e) => Err(e),
        }
    }

    fn fill_ne_bytes<R: BufSource>(reader: &mut R) -> (r: Result<u8, IoError>) {
        proof {
            lemma_byte_bounds();
        }
        let n: usize = 1;
        match fill_bits(reader, n, ByteOrder::Native) {
            Ok(u) => Ok(u as u8),
            Err(e) => Err(e),
        }
    }
}

impl ReadBytes for u16 {
    fn read_be_bytes<R: Source>(reader: &mut R) -> (r: Result<u16, IoError>) {
        proof {
            lemma_byte_bounds();
        }
        let n: usize = 2;
        match read_bits(reader, n, ByteOrder::Big) {
            Ok(u) => Ok(u as u16),
            Err(e) => Err(e),
        }
    }

    fn read_le_bytes<R: Source>(reader: &mut R) -> (r: Result<u16, IoError>) {
        proof {
            lemma_byte_bounds();
        }
        let n: usize = 2;
        match read_bits(reader, n, ByteOrder::Little) {
            Ok(u) => Ok(u as u16),
            Err(e) => Err(e),
        }
    }

    fn read_ne_bytes<R: Source>(reader: &mut R) -> (r: Result<u16, IoError>) {
        proof {
            lemma_byte_bounds();
        }
        let n: usize = 2;
        match read_bits(reader, n, ByteOrder::Native) {
            Ok(u) => Ok(u as u16),
            Err(e) => Err(e),
        }
    }

    fn fill_be_bytes<R: BufSource>(reader: &mut R) -> (r: Result<u16, IoError>) {
        proof {
            lemma_byte_bounds();
        }
        let n: usize = 2;
        match fill_bits(reader, n, ByteOrder::Big) {
            Ok(u) => Ok(u as u16),
            Err(e) => Err(e),
        }
    }

    fn fill_le_bytes<R: BufSource>(reader: &mut R) -> (r: Result<u16, IoError>) {
        proof {
            lemma_byte_bounds();
        }
        let n: usize = 2;
        match fill_bits(reader, n, ByteOrder::Little) {
            Ok(u) => Ok(u as u16),
            Err(e) => Err(e),
        }
    }

    fn fill_ne_bytes<R: BufSource>(reader: &mut R) -> (r: Result<u16, IoError>) {
        proof {
            lemma_byte_bounds();
        }
        let n: usize = 2;
        match fill_bits(reader, n, ByteOrder::Native) {
            Ok(u) => Ok(u as u16),
            Err(e) => Err(e),
        }
    }
}

impl ReadBytes for u32 {
    fn read_be_bytes<R: Source>(reader: &mut R) -> (r: Result<u32, IoError>) {
        proof {
            lemma_byte_bounds();
        }
        let n: usize = 4;
        match read_bits(reader, n, ByteOrder::Big) {
            Ok(u) => Ok(u as u32),
            Err(e) => Err(e),
        }
    }

    fn read_le_bytes<R: Source>(reader: &mut R) -> (r: Result<u32, IoError>) {
        proof {
            lemma_byte_bounds();
        }
        let n: usize = 4;
        match read_bits(reader, n, ByteOrder::Little) {
            Ok(u) => Ok(u as u32),
            Err(e) => Err(e),
        }
    }

    fn read_ne_bytes<R: Source>(reader: &mut R) -> (r: Result<u32, IoError>) {
        proof {
            lemma_byte_bounds();
        }
        let n: usize = 4;
        match read_bits(reader, n, ByteOrder::Native) {
            Ok(u) => Ok(u as u32),
            Err(e) => Err(e),
        }
    }

    fn fill_be_bytes<R: BufSource>(reader: &mut R) -> (r: Result<u32, IoError>) {
        proof {
            lemma_byte_bounds();
        }
        let n: usize = 4;
        match fill_bits(reader, n, ByteOrder::Big) {
            Ok(u) => Ok(u as u32),
            Err(e) => Err(e),
        }
    }

    fn fill_le_bytes<R: BufSource>(reader: &mut R) -> (r: Result<u32, IoError>) {
        proof {
            lemma_byte_bounds();
        }
        let n: usize = 4;
        match fill_bits(reader, n, ByteOrder::Little) {
            Ok(u) => Ok(u as u32),
            Err(e) => Err(e),
        }
    }

    fn fill_ne_bytes<R: BufSource>(reader: &mut R) -> (r: Result<u32, IoError>) {
        proof {
            lemma_byte_bounds();
        }
        let n: usize = 4;
        match fill_bits(reader, n, ByteOrder::Native) {
            Ok(u) => Ok(u as u32),
            Err(e) => Err(e),
        }
    }
}

impl ReadBytes for u64 {
    fn read_be_bytes<R: Source>(reader: &mut R) -> (r: Result<u64, IoError>) {
        proof {
            lemma_byte_bounds();
        }
        let n: usize = 8;
        match read_bits(reader, n, ByteOrder::Big) {
            Ok(u) => Ok(u as u64),
            Err(e) => Err(e),
        }
    }

    fn read_le_bytes<R: Source>(reader: &mut R) -> (r: Result<u64, IoError>) {
        proof {
            lemma_byte_bounds();
        }
        let n: usize = 8;
        match read_bits(reader, n, ByteOrder::Little) {
            Ok(u) => Ok(u as u64),
            Err(e) => Err(e),
        }
    }

    fn read_ne_bytes<R: Source>(reader: &mut R) -> (r: Result<u64, IoError>) {
        proof {
            lemma_byte_bounds();
        }
        let n: usize = 8;
        match read_bits(reader, n, ByteOrder::Native) {
            Ok(u) => Ok(u as u64),
            Err(e) => Err(e),
        }
    }

    fn fill_be_bytes<R: BufSource>(reader: &mut R) -> (r: Result<u64, IoError>) {
        proof {
            lemma_byte_bounds();
        }
        let n: usize = 8;
        match fill_bits(reader, n, ByteOrder::Big) {
            Ok(u) => Ok(u as u64),
            Err(e) => Err(e),
        }
    }

    fn fill_le_bytes<R: BufSource>(reader: &mut R) -> (r: Result<u64, IoError>) {
        proof {
            lemma_byte_bounds();
        }
        let n: usize = 8;
        match fill_bits(reader, n, ByteOrder::Little) {
            Ok(u) => Ok(u as u64),
            Err(e) => Err(e),
        }
    }

    fn fill_ne_bytes<R: BufSource>(reader: &mut R) -> (r: Result<u64, IoError>) {
        proof {
            lemma_byte_bounds();
        }
        let n: usize = 8;
        match fill_bits(reader, n, ByteOrder::Native) {
            Ok(u) => Ok(u as u64),
            Err(e) => Err(e),
        }
    }
}

impl ReadBytes for u128 {
    fn read_be_bytes<R: Source>(reader: &mut R) -> (r: Result<u128, IoError>) {
        proof {
            lemma_byte_bounds();
        }
        let n: usize = 16;
        match read_bits(reader, n, ByteOrder::Big) {
            Ok(u) => Ok(u as u128),
            Err(e) => Err(e),
        }
    }

    fn read_le_bytes<R: Source>(reader: &mut R) -> (r: Result<u128, IoError>) {
        proof {
            lemma_byte_bounds();
        }
        let n: usize = 16;
        match read_bits(reader, n, ByteOrder::Little) {
            Ok(u) => Ok(u as u128),
            Err(e) => Err(e),
        }
    }

    fn read_ne_bytes<R: Source>(reader: &mut R) -> (r: Result<u128, IoError>) {
        proof {
            lemma_byte_bounds();
        }
        let n: usize = 16;
        match read_bits(reader, n, ByteOrder::Native) {
            Ok(u) => Ok(u as u128),
            Err(e) => Err(e),
        }
    }

    fn fill_be_bytes<R: BufSource>(reader: &mut R) -> (r: Result<u128, IoError>) {
        proof {
            lemma_byte_bounds();
        }
        let n: usize = 16;
        match fill_bits(reader, n, ByteOrder::Big) {
            Ok(u) => Ok(u as u128),
            Err(e) => Err(e),
        }
    }

    fn fill_le_bytes<R: BufSource>(reader: &mut R) -> (r: Result<u128, IoError>) {
        proof {
            lemma_byte_bounds();
        }
        let n: usize = 16;
        match fill_bits(reader, n, ByteOrder::Little) {
            Ok(u) => Ok(u as u128),
            Err(e) => Err(e),
        }
    }

    fn fill_ne_bytes<R: BufSource>(reader: &mut R) -> (r: Result<u128, IoError>) {
        proof {
            lemma_byte_bounds();
        }
        let n: usize = 16;
        match fill_bits(reader, n, ByteOrder::Native) {
            Ok(u) => Ok(u as u128),
            Err(e) => Err(e),
        }
    }
}

impl ReadBytes for usize {
    fn read_be_bytes<R: Source>(reader: &mut R) -> (r: Result<usize, IoError>) {
        proof {
            lemma_byte_bounds();
        }
        let n: usize = core::mem::size_of::<usize>();
        match read_bits(reader, n, ByteOrder::Big) {
            Ok(u) => Ok(u as usize),
            Err(e) => Err(e),
        }
    }

    fn read_le_bytes<R: Source>(reader: &mut R) -> (r: Result<usize, IoError>) {
        proof {
            lemma_byte_bounds();
        }
        let n: usize = core::mem::size_of::<usize>();
        match read_bits(reader, n, ByteOrder::Little) {
            Ok(u) => Ok(u as usize),
            Err(e) => Err(e),
        }
    }

    fn read_ne_bytes<R: Source>(reader: &mut R) -> (r: Result<usize, IoError>) {
        proof {
            lemma_byte_bounds();
        }
        let n: usize = core::mem::size_of::<usize>();
        match read_bits(reader, n, ByteOrder::Native) {
            Ok(u) => Ok(u as usize),
            Err(e) => Err(e),
        }
    }

    fn fill_be_bytes<R: BufSource>(reader: &mut R) -> (r: Result<usize, IoError>) {
        proof {
            lemma_byte_bounds();
        }
        let n: usize = core::mem::size_of::<usize>();
        match fill_bits(reader, n, ByteOrder::Big) {
            Ok(u) => Ok(u as usize),
            Err(e) => Err(e),
        }
    }

    fn fill_le_bytes<R: BufSource>(reader: &mut R) -> (r: Result<usize, IoError>) {
        proof {
            lemma_byte_bounds();
        }
        let n: usize = core::mem::size_of::<usize>();
        match fill_bits(reader, n, ByteOrder::Little) {
            Ok(u) => Ok(u as usize),
            Err(e) => Err(e),
        }
    }

    fn fill_ne_bytes<R: BufSource>(reader: &mut R) -> (r: Result<usize, IoError>) {
        proof {
            lemma_byte_bounds();
        }
        let n: usize = core::mem::size_of::<usize>();
        match fill_bits(reader, n, ByteOrder::Native) {
            Ok(u) => Ok(u as usize),
            Err(e) => Err(e),
        }
    }
}

impl ReadBytes for i8 {
    fn read_be_bytes<R: Source>(reader: &mut R) -> (r: Result<i8, IoError>) {
        proof {
            lemma_byte_bounds();
        }
        let n: usize = 1;
        match read_bits(reader, n, ByteOrder::Big) {
            Ok(u) => Ok(to_signed_exec(u, n) as i8),
            Err(e) => Err(e),
        }
    }

    fn read_le_bytes<R: Source>(reader: &mut R) -> (r: Result<i8, IoError>) {
        proof {
            lemma_byte_bounds();
        }
        let n: usize = 1;
        match read_bits(reader, n, ByteOrder::Little) {
            Ok(u) => Ok(to_signed_exec(u, n) as i8),
            Err(e) => Err(e),
        }
    }

    fn read_ne_bytes<R: Source>(reader: &mut R) -> (r: Result<i8, IoError>) {
        proof {
            lemma_byte_bounds();
        }
        let n: usize = 1;
        match read_bits(reader, n, ByteOrder::Native) {
            Ok(u) => Ok(to_signed_exec(u, n) as i8),
            Err(e) => Err(e),
        }
    }

    fn fill_be_bytes<R: BufSource>(reader: &mut R) -> (r: Result<i8, IoError>) {
        proof {
            lemma_byte_bounds();
        }
        let n: usize = 1;
        match fill_bits(reader, n, ByteOrder::Big) {
            Ok(u) => Ok(to_signed_exec(u, n) as i8),
            Err(e) => Err(e),
        }
    }

    fn fill_le_bytes<R: BufSource>(reader: &mut R) -> (r: Result<i8, IoError>) {
        proof {
            lemma_byte_bounds();
        }
        let n: usize = 1;
        match fill_bits(reader, n, ByteOrder::Little) {
            Ok(u) => Ok(to_signed_exec(u, n) as i8),
            Err(e) => Err(e),
        }
    }

    fn fill_ne_bytes<R: BufSource>(reader: &mut R) -> (r: Result<i8, IoError>) {
        proof {
            lemma_byte_bounds();
        }
        let n: usize = 1;
        match fill_bits(reader, n, ByteOrder::Native) {
            Ok(u) => Ok(to_signed_exec(u, n) as i8),
            Err(e) => Err(e),
        }
    }
}

impl ReadBytes for i16 {
    fn read_be_bytes<R: Source>(reader: &mut R) -> (r: Result<i16, IoError>) {
        proof {
            lemma_byte_bounds();
        }
        let n: usize = 2;
        match read_bits(reader, n, ByteOrder::Big) {
            Ok(u) => Ok(to_signed_exec(u, n) as i16),
            Err(e) => Err(e),
        }
    }

    fn read_le_bytes<R: Source>(reader: &mut R) -> (r: Result<i16, IoError>) {
        proof {
            lemma_byte_bounds();
        }
        let n: usize = 2;
        match read_bits(reader, n, ByteOrder::Little) {
            Ok(u) => Ok(to_signed_exec(u, n) as i16),
            Err(e) => Err(e),
        }
    }

    fn read_ne_bytes<R: Source>(reader: &mut R) -> (r: Result<i16, IoError>) {
        proof {
            lemma_byte_bounds();
        }
        let n: usize = 2;
        match read_bits(reader, n, ByteOrder::Native) {
            Ok(u) => Ok(to_signed_exec(u, n) as i16),
            Err(e) => Err(e),
        }
    }

    fn fill_be_bytes<R: BufSource>(reader: &mut R) -> (r: Result<i16, IoError>) {
        proof {
            lemma_byte_bounds();
        }
        let n: usize = 2;
        match fill_bits(reader, n, ByteOrder::Big) {
            Ok(u) => Ok(to_signed_exec(u, n) as i16),
            Err(e) => Err(e),
        }
    }

    fn fill_le_bytes<R: BufSource>(reader: &mut R) -> (r: Result<i16, IoError>) {
        proof {
            lemma_byte_bounds();
        }
        let n: usize = 2;
        match fill_bits(reader, n, ByteOrder::Little) {
            Ok(u) => Ok(to_signed_exec(u, n) as i16),
            Err(e) => Err(e),
        }
    }

    fn fill_ne_bytes<R: BufSource>(reader: &mut R) -> (r: Result<i16, IoError>) {
        proof {
            lemma_byte_bounds();
        }
        let n: usize = 2;
        match fill_bits(reader, n, ByteOrder::Native) {
            Ok(u) => Ok(to_signed_exec(u, n) as i16),
            Err(e) => Err(e),
        }
    }
}

impl ReadBytes for i32 {
    fn read_be_bytes<R: Source>(reader: &mut R) -> (r: Result<i32, IoError>) {
        proof {
            lemma_byte_bounds();
        }
        let n: usize = 4;
        match read_bits(reader, n, ByteOrder::Big) {
            Ok(u) => Ok(to_signed_exec(u, n) as i32),
            Err(e) => Err(e),
        }
    }

    fn read_le_bytes<R: Source>(reader: &mut R) -> (r: Result<i32, IoError>) {
        proof {
            lemma_byte_bounds();
        }
        let n: usize = 4;
        match read_bits(reader, n, ByteOrder::Little) {
            Ok(u) => Ok(to_signed_exec(u, n) as i32),
            Err(e) => Err(e),
        }
    }

    fn read_ne_bytes<R: Source>(reader: &mut R) -> (r: Result<i32, IoError>) {
        proof {
            lemma_byte_bounds();
        }
        let n: usize = 4;
        match read_bits(reader, n, ByteOrder::Native) {
            Ok(u) => Ok(to_signed_exec(u, n) as i32),
            Err(e) => Err(e),
        }
    }

    fn fill_be_bytes<R: BufSource>(reader: &mut R) -> (r: Result<i32, IoError>) {
        proof {
            lemma_byte_bounds();
        }
        let n: usize = 4;
        match fill_bits(reader, n, ByteOrder::Big) {
            Ok(u) => Ok(to_signed_exec(u, n) as i32),
            Err(e) => Err(e),
        }
    }

    fn fill_le_bytes<R: BufSource>(reader: &mut R) -> (r: Result<i32, IoError>) {
        proof {
            lemma_byte_bounds();
        }
        let n: usize = 4;
        match fill_bits(reader, n, ByteOrder::Little) {
            Ok(u) => Ok(to_signed_exec(u, n) as i32),
            Err(e) => Err(e),
        }
    }

    fn fill_ne_bytes<R: BufSource>(reader: &mut R) -> (r: Result<i32, IoError>) {
        proof {
            lemma_byte_bounds();
        }
        let n: usize = 4;
        match fill_bits(reader, n, ByteOrder::Native) {
            Ok(u) => Ok(to_signed_exec(u, n) as i32),
            Err(e) => Err(e),
        }
    }
}

impl ReadBytes for i64 {
    fn read_be_bytes<R: Source>(reader: &mut R) -> (r: Result<i64, IoError>) {
        proof {
            lemma_byte_bounds();
        }
        let n: usize = 8;
        match read_bits(reader, n, ByteOrder::Big) {
            Ok(u) => Ok(to_signed_exec(u, n) as i64),
            Err(e) => Err(e),
        }
    }

    fn read_le_bytes<R: Source>(reader: &mut R) -> (r: Result<i64, IoError>) {
        proof {
            lemma_byte_bounds();
        }
        let n: usize = 8;
        match read_bits(reader, n, ByteOrder::Little) {
            Ok(u) => Ok(to_signed_exec(u, n) as i64),
            Err(e) => Err(e),
        }
    }

    fn read_ne_bytes<R: Source>(reader: &mut R) -> (r: Result<i64, IoError>) {
        proof {
            lemma_byte_bounds();
        }
        let n: usize = 8;
        match read_bits(reader, n, ByteOrder::Native) {
            Ok(u) => Ok(to_signed_exec(u, n) as i64),
            Err(e) => Err(e),
        }
    }

    fn fill_be_bytes<R: BufSource>(reader: &mut R) -> (r: Result<i64, IoError>) {
        proof {
            lemma_byte_bounds();
        }
        let n: usize = 8;
        match fill_bits(reader, n, ByteOrder::Big) {
            Ok(u) => Ok(to_signed_exec(u, n) as i64),
            Err(e) => Err(e),
        }
    }

    fn fill_le_bytes<R: BufSource>(reader: &mut R) -> (r: Result<i64, IoError>) {
        proof {
            lemma_byte_bounds();
        }
        let n: usize = 8;
        match fill_bits(reader, n, ByteOrder::Little) {
            Ok(u) => Ok(to_signed_exec(u, n) as i64),
            Err(e) => Err(e),
        }
    }

    fn fill_ne_bytes<R: BufSource>(reader: &mut R) -> (r: Result<i64, IoError>) {
        proof {
            lemma_byte_bounds();
        }
        let n: usize = 8;
        match fill_bits(reader, n, ByteOrder::Native) {
            Ok(u) => Ok(to_signed_exec(u, n) as i64),
            Err(e) => Err(e),
        }
    }
}

impl ReadBytes for i128 {
    fn read_be_bytes<R: Source>(reader: &mut R) -> (r: Result<i128, IoError>) {
        proof {
            lemma_byte_bounds();
        }
        let n: usize = 16;
        match read_bits(reader, n, ByteOrder::Big) {
            Ok(u) => Ok(to_signed_exec(u, n) as i128),
            Err(e) => Err(e),
        }
    }

    fn read_le_bytes<R: Source>(reader: &mut R) -> (r: Result<i128, IoError>) {
        proof {
            lemma_byte_bounds();
        }
        let n: usize = 16;
        match read_bits(reader, n, ByteOrder::Little) {
            Ok(u) => Ok(to_signed_exec(u, n) as i128),
            Err(e) => Err(e),
        }
    }

    fn read_ne_bytes<R: Source>(reader: &mut R) -> (r: Result<i128, IoError>) {
        proof {
            lemma_byte_bounds();
        }
        let n: usize = 16;
        match read_bits(reader, n, ByteOrder::Native) {
            Ok(u) => Ok(to_signed_exec(u, n) as i128),
            Err(e) => Err(e),
        }
    }

    fn fill_be_bytes<R: BufSource>(reader: &mut R) -> (r: Result<i128, IoError>) {
        proof {
            lemma_byte_bounds();
        }
        let n: usize = 16;
        match fill_bits(reader, n, ByteOrder::Big) {
            Ok(u) => Ok(to_signed_exec(u, n) as i128),
            Err(e) => Err(e),
        }
    }

    fn fill_le_bytes<R: BufSource>(reader: &mut R) -> (r: Result<i128, IoError>) {
        proof {
            lemma_byte_bounds();
        }
        let n: usize = 16;
        match fill_bits(reader, n, ByteOrder::Little) {
            Ok(u) => Ok(to_signed_exec(u, n) as i128),
            Err(e) => Err(e),
        }
    }

    fn fill_ne_bytes<R: BufSource>(reader: &mut R) -> (r: Result<i128, IoError>) {
        proof {
            lemma_byte_bounds();
        }
        let n: usize = 16;
        match fill_bits(reader, n, ByteOrder::Native) {
            Ok(u) => Ok(to_signed_exec(u, n) as i128),
            Err(e) => Err(e),
        }
    }
}

impl ReadBytes for isize {
    fn read_be_bytes<R: Source>(reader: &mut R) -> (r: Result<isize, IoError>) {
        proof {
            lemma_byte_bounds();
        }
        let n: usize = core::mem::size_of::<isize>();
        match read_bits(reader, n, ByteOrder::Big) {
            Ok(u) => Ok(to_signed_exec(u, n) as isize),
            Err(e) => Err(e),
        }
    }

    fn read_le_bytes<R: Source>(reader: &mut R) -> (r: Result<isize, IoError>) {
        proof {
            lemma_byte_bounds();
        }
        let n: usize = core::mem::size_of::<isize>();
        match read_bits(reader, n, ByteOrder::Little) {
            Ok(u) => Ok(to_signed_exec(u, n) as isize),
            Err(e) => Err(e),
        }
    }

    fn read_ne_bytes<R: Source>(reader: &mut R) -> (r: Result<isize, IoError>) {
        proof {
            lemma_byte_bounds();
        }
        let n: usize = core::mem::size_of::<isize>();
        match read_bits(reader, n, ByteOrder::Native) {
            Ok(u) => Ok(to_signed_exec(u, n) as isize),
            Err(e) => Err(e),
        }
    }

    fn fill_be_bytes<R: BufSource>(reader: &mut R) -> (r: Result<isize, IoError>) {
        proof {
            lemma_byte_bounds();
        }
        let n: usize = core::mem::size_of::<isize>();
        match fill_bits(reader, n, ByteOrder::Big) {
            Ok(u) => Ok(to_signed_exec(u, n) as isize),
            Err(e) => Err(e),
        }
    }

    fn fill_le_bytes<R: BufSource>(reader: &mut R) -> (r: Result<isize, IoError>) {
        proof {
            lemma_byte_bounds();
        }
        let n: usize = core::mem::size_of::<isize>();
        match fill_bits(reader, n, ByteOrder::Little) {
            Ok(u) => Ok(to_signed_exec(u, n) as isize),
            Err(e) => Err(e),
        }
    }

    fn fill_ne_bytes<R: BufSource>(reader: &mut R) -> (r: Result<isize, IoError>) {
        proof {
            lemma_byte_bounds();
        }
        let n: usize = core::mem::size_of::<isize>();
        match fill_bits(reader, n, ByteOrder::Native) {
            Ok(u) => Ok(to_signed_exec(u, n) as isize),
            Err(e) => Err(e),
        }
    }
}

} // verus!
