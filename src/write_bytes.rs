//! Writing fixed-width integers to byte sinks.
use vstd::prelude::*;

use crate::codec::{
    big_first, encode_value, lemma_byte_bounds, to_unsigned_exec, write_bits, ByteOrder, FixedInt,
};
use crate::source::{handed_on, overwritten, IoError, Sink};

verus! {

/// The outcome of writing `v` in the given order to a sink that was
/// `before` the call and is `after` it: on success the value's bytes follow
/// what was written, were written over the bytes ahead, and their number is
/// returned; otherwise the error is the one that the sink reported.
pub open spec fn write_outcome<T: FixedInt, W: Sink>(
    v: T,
    before: W,
    after: W,
    order: ByteOrder,
    r: Result<usize, IoError>,
) -> bool {
    &&& (before.accepts_all() ==> r is Ok)
    &&& match r {
        Ok(k) => {
            &&& k == T::width()
            &&& after.written() == before.written() + encode_value(
                v.value(),
                T::width(),
                big_first(order),
            )
            &&& after.ahead() == overwritten(before.ahead(), T::width())
        },
        Err(e) => handed_on(e, after.refused()),
    }
}

/// Writes integers to sinks, in a chosen byte order.
pub trait WriteBytes: FixedInt {
    /// Writes the value as big endian and returns the number of bytes written.
    fn write_be_bytes<W: Sink>(&self, writer: &mut W) -> (r: Result<usize, IoError>)
        ensures
            final(writer).accepts_all() == old(writer).accepts_all(),
            write_outcome(*self, *old(writer), *final(writer), ByteOrder::Big, r),
    ;

    /// Writes the value as little endian and returns the number of bytes written.
    fn write_le_bytes<W: Sink>(&self, writer: &mut W) -> (r: Result<usize, IoError>)
        ensures
            final(writer).accepts_all() == old(writer).accepts_all(),
            write_outcome(*self, *old(writer), *final(writer), ByteOrder::Little, r),
    ;

    /// Writes the value as native endianness and returns the number of bytes written.
    fn write_ne_bytes<W: Sink>(&self, writer: &mut W) -> (r: Result<usize, IoError>)
        ensures
            final(writer).accepts_all() == old(writer).accepts_all(),
            write_outcome(*self, *old(writer), *final(writer), ByteOrder::Native, r),
    ;
}

impl WriteBytes for u8 {
    fn write_be_bytes<W: Sink>(&self, writer: &mut W) -> (r: Result<usize, IoError>) {
        proof {
            lemma_byte_bounds();
        }
        let n: usize = 1;
        write_bits(writer, *self as u128, n, ByteOrder::Big)
    }

    fn write_le_bytes<W: Sink>(&self, writer: &mut W) -> (r: Result<usize, IoError>) {
        proof {
            lemma_byte_bounds();
        }
        let n: usize = 1;
        write_bits(writer, *self as u128, n, ByteOrder::Little)
    }

    fn write_ne_bytes<W: Sink>(&self, writer: &mut W) -> (r: Result<usize, IoError>) {
        proof {
            lemma_byte_bounds();
        }
        let n: usize = 1;
        write_bits(writer, *self as u128, n, ByteOrder::Native)
    }
}

impl WriteBytes for u16 {
    fn write_be_bytes<W: Sink>(&self, writer: &mut W) -> (r: Result<usize, IoError>) {
        proof {
            lemma_byte_bounds();
        }
        let n: usize = 2;
        write_bits(writer, *self as u128, n, ByteOrder::Big)
    }

    fn write_le_bytes<W: Sink>(&self, writer: &mut W) -> (r: Result<usize, IoError>) {
        proof {
            lemma_byte_bounds();
        }
        let n: usize = 2;
        write_bits(writer, *self as u128, n, ByteOrder::Little)
    }

    fn write_ne_bytes<W: Sink>(&self, writer: &mut W) -> (r: Result<usize, IoError>) {
        proof {
            lemma_byte_bounds();
        }
        let n: usize = 2;
        write_bits(writer, *self as u128, n, ByteOrder::Native)
    }
}

impl WriteBytes for u32 {
    fn write_be_bytes<W: Sink>(&self, writer: &mut W) -> (r: Result<usize, IoError>) {
        proof {
            lemma_byte_bounds();
        }
        let n: usize = 4;
        write_bits(writer, *self as u128, n, ByteOrder::Big)
    }

    fn write_le_bytes<W: Sink>(&self, writer: &mut W) -> (r: Result<usize, IoError>) {
        proof {
            lemma_byte_bounds();
        }
        let n: usize = 4;
        write_bits(writer, *self as u128, n, ByteOrder::Little)
    }

    fn write_ne_bytes<W: Sink>(&self, writer: &mut W) -> (r: Result<usize, IoError>) {
        proof {
            lemma_byte_bounds();
        }
        let n: usize = 4;
        write_bits(writer, *self as u128, n, ByteOrder::Native)
    }
}

impl WriteBytes for u64 {
    fn write_be_bytes<W: Sink>(&self, writer: &mut W) -> (r: Result<usize, IoError>) {
        proof {
            lemma_byte_bounds();
        }
        let n: usize = 8;
        write_bits(writer, *self as u128, n, ByteOrder::Big)
    }

    fn write_le_bytes<W: Sink>(&self, writer: &mut W) -> (r: Result<usize, IoError>) {
        proof {
            lemma_byte_bounds();
        }
        let n: usize = 8;
        write_bits(writer, *self as u128, n, ByteOrder::Little)
    }

    fn write_ne_bytes<W: Sink>(&self, writer: &mut W) -> (r: Result<usize, IoError>) {
        proof {
            lemma_byte_bounds();
        }
        let n: usize = 8;
        write_bits(writer, *self as u128, n, ByteOrder::Native)
    }
}

impl WriteBytes for u128 {
    fn write_be_bytes<W: Sink>(&self, writer: &mut W) -> (r: Result<usize, IoError>) {
        proof {
            lemma_byte_bounds();
        }
        let n: usize = 16;
        write_bits(writer, *self as u128, n, ByteOrder::Big)
    }

    fn write_le_bytes<W: Sink>(&self, writer: &mut W) -> (r: Result<usize, IoError>) {
        proof {
            lemma_byte_bounds();
        }
        let n: usize = 16;
        write_bits(writer, *self as u128, n, ByteOrder::Little)
    }

    fn write_ne_bytes<W: Sink>(&self, writer: &mut W) -> (r: Result<usize, IoError>) {
        proof {
            lemma_byte_bounds();
        }
        let n: usize = 16;
        write_bits(writer, *self as u128, n, ByteOrder::Native)
    }
}

impl WriteBytes for usize {
    fn write_be_bytes<W: Sink>(&self, writer: &mut W) -> (r: Result<usize, IoError>) {
        proof {
            lemma_byte_bounds();
        }
        let n: usize = core::mem::size_of::<usize>();
        write_bits(writer, *self as u128, n, ByteOrder::Big)
    }

    fn write_le_bytes<W: Sink>(&self, writer: &mut W) -> (r: Result<usize, IoError>) {
        proof {
            lemma_byte_bounds();
        }
        let n: usize = core::mem::size_of::<usize>();
        write_bits(writer, *self as u128, n, ByteOrder::Little)
    }

    fn write_ne_bytes<W: Sink>(&self, writer: &mut W) -> (r: Result<usize, IoError>) {
        proof {
            lemma_byte_bounds();
        }
        let n: usize = core::mem::size_of::<usize>();
        write_bits(writer, *self as u128, n, ByteOrder::Native)
    }
}

impl WriteBytes for i8 {
    fn write_be_bytes<W: Sink>(&self, writer: &mut W) -> (r: Result<usize, IoError>) {
        proof {
            lemma_byte_bounds();
        }
        let n: usize = 1;
        write_bits(writer, to_unsigned_exec(*self as i128, n), n, ByteOrder::Big)
    }

    fn write_le_bytes<W: Sink>(&self, writer: &mut W) -> (r: Result<usize, IoError>) {
        proof {
            lemma_byte_bounds();
        }
        let n: usize = 1;
        write_bits(writer, to_unsigned_exec(*self as i128, n), n, ByteOrder::Little)
    }

    fn write_ne_bytes<W: Sink>(&self, writer: &mut W) -> (r: Result<usize, IoError>) {
        proof {
            lemma_byte_bounds();
        }
        let n: usize = 1;
        write_bits(writer, to_unsigned_exec(*self as i128, n), n, ByteOrder::Native)
    }
}

impl WriteBytes for i16 {
    fn write_be_bytes<W: Sink>(&self, writer: &mut W) -> (r: Result<usize, IoError>) {
        proof {
            lemma_byte_bounds();
        }
        let n: usize = 2;
        write_bits(writer, to_unsigned_exec(*self as i128, n), n, ByteOrder::Big)
    }

    fn write_le_bytes<W: Sink>(&self, writer: &mut W) -> (r: Result<usize, IoError>) {
        proof {
            lemma_byte_bounds();
        }
        let n: usize = 2;
        write_bits(writer, to_unsigned_exec(*self as i128, n), n, ByteOrder::Little)
    }

    fn write_ne_bytes<W: Sink>(&self, writer: &mut W) -> (r: Result<usize, IoError>) {
        proof {
            lemma_byte_bounds();
        }
        let n: usize = 2;
        write_bits(writer, to_unsigned_exec(*self as i128, n), n, ByteOrder::Native)
    }
}

impl WriteBytes for i32 {
    fn write_be_bytes<W: Sink>(&self, writer: &mut W) -> (r: Result<usize, IoError>) {
        proof {
            lemma_byte_bounds();
        }
        let n: usize = 4;
        write_bits(writer, to_unsigned_exec(*self as i128, n), n, ByteOrder::Big)
    }

    fn write_le_bytes<W: Sink>(&self, writer: &mut W) -> (r: Result<usize, IoError>) {
        proof {
            lemma_byte_bounds();
        }
        let n: usize = 4;
        write_bits(writer, to_unsigned_exec(*self as i128, n), n, ByteOrder::Little)
    }

    fn write_ne_bytes<W: Sink>(&self, writer: &mut W) -> (r: Result<usize, IoError>) {
        proof {
            lemma_byte_bounds();
        }
        let n: usize = 4;
        write_bits(writer, to_unsigned_exec(*self as i128, n), n, ByteOrder::Native)
    }
}

impl WriteBytes for i64 {
    fn write_be_bytes<W: Sink>(&self, writer: &mut W) -> (r: Result<usize, IoError>) {
        proof {
            lemma_byte_bounds();
        }
        let n: usize = 8;
        write_bits(writer, to_unsigned_exec(*self as i128, n), n, ByteOrder::Big)
    }

    fn write_le_bytes<W: Sink>(&self, writer: &mut W) -> (r: Result<usize, IoError>) {
        proof {
            lemma_byte_bounds();
        }
        let n: usize = 8;
        write_bits(writer, to_unsigned_exec(*self as i128, n), n, ByteOrder::Little)
    }

    fn write_ne_bytes<W: Sink>(&self, writer: &mut W) -> (r: Result<usize, IoError>) {
        proof {
            lemma_byte_bounds();
        }
        let n: usize = 8;
        write_bits(writer, to_unsigned_exec(*self as i128, n), n, ByteOrder::Native)
    }
}

impl WriteBytes for i128 {
    fn write_be_bytes<W: Sink>(&self, writer: &mut W) -> (r: Result<usize, IoError>) {
        proof {
            lemma_byte_bounds();
        }
        let n: usize = 16;
        write_bits(writer, to_unsigned_exec(*self as i128, n), n, ByteOrder::Big)
    }

    fn write_le_bytes<W: Sink>(&self, writer: &mut W) -> (r: Result<usize, IoError>) {
        proof {
            lemma_byte_bounds();
        }
        let n: usize = 16;
        write_bits(writer, to_unsigned_exec(*self as i128, n), n, ByteOrder::Little)
    }

    fn write_ne_bytes<W: Sink>(&self, writer: &mut W) -> (r: Result<usize, IoError>) {
        proof {
            lemma_byte_bounds();
        }
        let n: usize = 16;
        write_bits(writer, to_unsigned_exec(*self as i128, n), n, ByteOrder::Native)
    }
}

impl WriteBytes for isize {
    fn write_be_bytes<W: Sink>(&self, writer: &mut W) -> (r: Result<usize, IoError>) {
        proof {
            lemma_byte_bounds();
        }
        let n: usize = core::mem::size_of::<isize>();
        write_bits(writer, to_unsigned_exec(*self as i128, n), n, ByteOrder::Big)
    }

    fn write_le_bytes<W: Sink>(&self, writer: &mut W) -> (r: Result<usize, IoError>) {
        proof {
            lemma_byte_bounds();
        }
        let n: usize = core::mem::size_of::<isize>();
        write_bits(writer, to_unsigned_exec(*self as i128, n), n, ByteOrder::Little)
    }

    fn write_ne_bytes<W: Sink>(&self, writer: &mut W) -> (r: Result<usize, IoError>) {
        proof {
            lemma_byte_bounds();
        }
        let n: usize = core::mem::size_of::<isize>();
        write_bits(writer, to_unsigned_exec(*self as i128, n), n, ByteOrder::Native)
    }
}

} // verus!
