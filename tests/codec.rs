use omnom::codec::{decode, encode, to_signed_exec, to_unsigned_exec};
use omnom::prelude::{
    BufReadExt, BufSource, ByteOrder, Cursor, IoError, ReadBytes, ReadExt, WriteBytes, WriteExt,
};

#[test]
fn write_le_then_read_le() {
    let mut buf = Cursor::new(vec![0; 15]);
    let num = 12_u16;
    buf.write_le(num).unwrap();
    buf.set_position(0);
    let num: u16 = buf.read_le_bytes().unwrap();
    assert_eq!(num, 12);
}

#[test]
fn byte_layout_of_each_order() {
    let mut v: Vec<u8> = Vec::new();
    assert_eq!(v.write_be(0x0102_u16).unwrap(), 2);
    assert_eq!(v.write_le(0x0102_u16).unwrap(), 2);
    assert_eq!(v.write_be(-2_i16).unwrap(), 2);
    assert_eq!(v.write_le(0x0a0b0c0d_u32).unwrap(), 4);
    assert_eq!(v, vec![1, 2, 2, 1, 0xff, 0xfe, 0x0d, 0x0c, 0x0b, 0x0a]);
}

#[test]
fn native_order_matches_target() {
    let mut v: Vec<u8> = Vec::new();
    v.write_ne(0x0102_u16).unwrap();
    assert_eq!(v, 0x0102_u16.to_ne_bytes().to_vec());
    let mut w: Vec<u8> = Vec::new();
    w.write_ne(-5_i64).unwrap();
    assert_eq!(w, (-5_i64).to_ne_bytes().to_vec());
    let mut c = Cursor::new(w);
    let back: i64 = c.read_ne_bytes().unwrap();
    assert_eq!(back, -5);
}

#[test]
fn round_trip_extremes() {
    let mut c = Cursor::new(Vec::new());
    c.write_be(0_u8).unwrap();
    c.write_le(u128::MAX).unwrap();
    c.write_be(i128::MIN).unwrap();
    c.write_le(i128::MAX).unwrap();
    c.write_be(i8::MIN).unwrap();
    c.write_le(usize::MAX).unwrap();
    c.write_be(isize::MIN).unwrap();
    c.write_be(i32::MAX).unwrap();
    c.set_position(0);
    assert_eq!(c.read_be_bytes::<u8>().unwrap(), 0);
    assert_eq!(c.read_le_bytes::<u128>().unwrap(), u128::MAX);
    assert_eq!(c.read_be_bytes::<i128>().unwrap(), i128::MIN);
    assert_eq!(c.read_le_bytes::<i128>().unwrap(), i128::MAX);
    assert_eq!(c.read_be_bytes::<i8>().unwrap(), i8::MIN);
    assert_eq!(c.read_le_bytes::<usize>().unwrap(), usize::MAX);
    assert_eq!(c.read_be_bytes::<isize>().unwrap(), isize::MIN);
    assert_eq!(c.read_be_bytes::<i32>().unwrap(), i32::MAX);
    assert_eq!(c.read_be_bytes::<u8>(), Err(IoError::UnexpectedEof));
}

#[test]
fn read_short_input_is_unexpected_eof() {
    let mut c = Cursor::new(vec![1, 2, 3]);
    assert_eq!(c.read_be_bytes::<u32>(), Err(IoError::UnexpectedEof));
    assert_eq!(u64::read_le_bytes(&mut c), Err(IoError::UnexpectedEof));
    assert_eq!(i16::fill_be_bytes(&mut c).unwrap(), 0x0102);
}

#[test]
fn fill_bytes_consumes_nothing() {
    let mut c = Cursor::new(vec![0x12, 0x34, 0x56]);
    assert_eq!(u16::fill_be_bytes(&mut c).unwrap(), 0x1234);
    assert_eq!(u16::fill_le_bytes(&mut c).unwrap(), 0x3412);
    assert_eq!(u16::fill_ne_bytes(&mut c).unwrap(), u16::from_ne_bytes([0x12, 0x34]));
    assert_eq!(c.fill_buf().unwrap().len(), 3);
    assert_eq!(u32::fill_be_bytes(&mut c), Err(IoError::UnexpectedEof));
    assert_eq!(c.get_position(), 0);
}

#[test]
fn write_bytes_methods() {
    let mut v: Vec<u8> = Vec::new();
    assert_eq!(7_i64.write_be_bytes(&mut v).unwrap(), 8);
    assert_eq!(7_u8.write_le_bytes(&mut v).unwrap(), 1);
    assert_eq!(v, vec![0, 0, 0, 0, 0, 0, 0, 7, 7]);
}

#[test]
fn decode_and_encode_values() {
    assert_eq!(decode(&[1, 0], ByteOrder::Little), 1);
    assert_eq!(decode(&[1, 0], ByteOrder::Big), 256);
    assert_eq!(decode(&[], ByteOrder::Big), 0);
    assert_eq!(encode(0x010203, 3, ByteOrder::Big), vec![1, 2, 3]);
    assert_eq!(encode(0x010203, 3, ByteOrder::Little), vec![3, 2, 1]);
    assert_eq!(to_unsigned_exec(-1, 2), 0xffff);
    assert_eq!(to_unsigned_exec(i128::MIN, 16), 1 << 127);
    assert_eq!(to_signed_exec(0xffff, 2), -1);
    assert_eq!(to_signed_exec(0x7fff, 2), 0x7fff);
    assert_eq!(to_signed_exec(1 << 127, 16), i128::MIN);
}

#[test]
fn cursor_overwrites_and_grows() {
    let mut c = Cursor::new(vec![9, 9, 9]);
    c.set_position(2);
    c.write_be(0x0102_u16).unwrap();
    assert_eq!(c.get_ref(), &vec![9, 9, 1, 2]);
    c.set_position(100);
    assert_eq!(c.get_position(), 4);
    assert_eq!(c.into_inner(), vec![9, 9, 1, 2]);
}

#[test]
fn write_keeps_bytes_past_the_write() {
    let mut c = Cursor::new(vec![0u8; 15]);
    assert_eq!(c.write_be(12_u16).unwrap(), 2);
    assert_eq!(&c.get_ref()[0..2], &[0x00, 0x0C]);
    assert_eq!(&c.get_ref()[2..], &[0u8; 13]);
    assert_eq!(c.get_position(), 2);
    let mut e = Cursor::new(Vec::new());
    assert_eq!(e.write_be(i32::MIN).unwrap(), 4);
    assert_eq!(e.get_ref(), &vec![0x80u8, 0, 0, 0]);
}
