use omnom::prelude::{BufReadExt, BufSource, Cursor, IoError};
use omnom::scan::find_byte;

/// The unread bytes of `c`.
fn rest(c: &Cursor) -> Vec<u8> {
    c.get_ref()[c.get_position()..].to_vec()
}

#[test]
fn try_read_until_lorem_ipsum() {
    let mut c = Cursor::new(b"lorem-ipsum".to_vec());
    let mut buf = Vec::new();
    assert_eq!(c.try_read_until(b'-', &mut buf).unwrap(), 6);
    assert_eq!(buf, b"lorem-");
    let mut buf = Vec::new();
    assert_eq!(c.try_read_until(b'-', &mut buf).unwrap(), 5);
    assert_eq!(buf, b"ipsum");
    let mut buf = Vec::new();
    assert_eq!(c.try_read_until(b'-', &mut buf).unwrap(), 0);
    assert!(buf.is_empty());
}

#[test]
fn try_read_until_delimiter_first() {
    let mut c = Cursor::new(b"-abc".to_vec());
    let mut buf = Vec::new();
    assert_eq!(c.try_read_until(b'-', &mut buf).unwrap(), 1);
    assert_eq!(buf, b"-");
    assert_eq!(c.fill_buf().unwrap(), b"abc");
}

#[test]
fn try_read_until_across_refills() {
    let mut s = Cursor::with_step(b"abcdefg-hi".to_vec(), 3);
    let mut buf = b">".to_vec();
    assert_eq!(s.try_read_until(b'-', &mut buf).unwrap(), 8);
    assert_eq!(buf, b">abcdefg-");
    assert_eq!(rest(&s), b"hi");
}

#[test]
fn repeated_delimited_reads_exhaust_input() {
    let input = b"a,bb,,ccc,dddd";
    let mut s = Cursor::with_step(input.to_vec(), 2);
    let mut joined = Vec::new();
    let mut total = 0;
    let mut calls = 0;
    loop {
        let mut buf = Vec::new();
        let n = s.try_read_until(b',', &mut buf).unwrap();
        calls += 1;
        assert_eq!(n, buf.len());
        if n == 0 {
            break;
        }
        total += n;
        joined.extend_from_slice(&buf);
    }
    assert_eq!(total, input.len());
    assert_eq!(joined, input);
    assert_eq!(calls, 6);
}

#[test]
fn repeated_skip_until_exhausts_input() {
    let input = b"x;yy;z";
    let mut c = Cursor::new(input.to_vec());
    let mut counts = Vec::new();
    loop {
        let n = c.skip_until(b';').unwrap();
        if n == 0 {
            break;
        }
        counts.push(n);
    }
    assert_eq!(counts, vec![2, 3, 1]);
    assert_eq!(counts.iter().sum::<usize>(), input.len());
}

#[test]
fn read_while_then_rest_gives_input() {
    let input = b"12345abc";
    let mut s = Cursor::with_step(input.to_vec(), 2);
    let mut buf = Vec::new();
    assert_eq!(s.read_while(&mut buf, |b| b.is_ascii_digit()).unwrap(), 5);
    let mut whole = buf.clone();
    whole.extend_from_slice(&rest(&s));
    assert_eq!(whole, input);
}

#[test]
fn fill_while_does_not_consume() {
    let mut s = Cursor::with_step(b"aaab".to_vec(), 1);
    let mut first = Vec::new();
    let mut second = Vec::new();
    assert_eq!(s.fill_while(&mut first, |b| b == b'a').unwrap(), 3);
    assert_eq!(s.fill_while(&mut second, |b| b == b'a').unwrap(), 3);
    assert_eq!(first, b"aaa");
    assert_eq!(first, second);
    assert_eq!(rest(&s), b"aaab");
}

#[test]
fn fill_while_whole_input() {
    let mut c = Cursor::new(b"zzz".to_vec());
    let mut buf = Vec::new();
    assert_eq!(c.fill_while(&mut buf, |b| b == b'z').unwrap(), 3);
    assert_eq!(c.get_position(), 0);
}

#[test]
fn fill_until_does_not_consume() {
    let mut s = Cursor::with_step(b"key=value".to_vec(), 2);
    let mut first = Vec::new();
    let mut second = Vec::new();
    assert_eq!(s.fill_until(b'=', &mut first).unwrap(), 4);
    assert_eq!(s.fill_until(b'=', &mut second).unwrap(), 4);
    assert_eq!(first, b"key=");
    assert_eq!(first, second);
    assert_eq!(rest(&s), b"key=value");
    s.consume(4);
    let mut rest = Vec::new();
    assert_eq!(s.fill_until(b'=', &mut rest).unwrap(), 5);
    assert_eq!(rest, b"value");
}

#[test]
fn fill_until_at_end_of_input() {
    let mut c = Cursor::new(Vec::new());
    let mut buf = Vec::new();
    assert_eq!(c.fill_until(b'\n', &mut buf).unwrap(), 0);
    assert!(buf.is_empty());
}

#[test]
fn fill_exact_waits_for_enough_bytes() {
    let mut s = Cursor::with_step(b"abcdefgh".to_vec(), 2);
    let mut dest = [0u8; 5];
    s.fill_exact(&mut dest).unwrap();
    assert_eq!(&dest, b"abcde");
    let mut again = [0u8; 5];
    s.fill_exact(&mut again).unwrap();
    assert_eq!(dest, again);
    assert_eq!(rest(&s), b"abcdefgh");
    assert_eq!(s.fill_buf().unwrap(), b"abcdefgh");
}

#[test]
fn fill_exact_past_end_is_unexpected_eof() {
    let mut s = Cursor::with_step(b"abc".to_vec(), 1);
    let mut dest = [0u8; 4];
    assert_eq!(s.fill_exact(&mut dest), Err(IoError::UnexpectedEof));
    assert_eq!(rest(&s), b"abc");
    let mut c = Cursor::new(b"abc".to_vec());
    let mut exact = [0u8; 3];
    c.fill_exact(&mut exact).unwrap();
    assert_eq!(&exact, b"abc");
}

#[test]
fn fill_exact_empty_destination() {
    let mut c = Cursor::new(Vec::new());
    let mut dest = [0u8; 0];
    assert_eq!(c.fill_exact(&mut dest), Ok(()));
}

#[test]
fn skip_stops_at_end() {
    let mut s = Cursor::with_step(b"abcdef".to_vec(), 4);
    s.skip(5).unwrap();
    assert_eq!(rest(&s), b"f");
    s.skip(10).unwrap();
    assert_eq!(rest(&s), b"");
    let mut c = Cursor::new(b"abc".to_vec());
    c.skip(0).unwrap();
    assert_eq!(c.get_position(), 0);
}

#[test]
fn skip_while_leaves_first_mismatch() {
    let mut s = Cursor::with_step(b"   x y".to_vec(), 2);
    assert_eq!(s.skip_while(|b| b == b' ').unwrap(), 3);
    assert_eq!(rest(&s), b"x y");
    assert_eq!(s.skip_while(|b| b == b' ').unwrap(), 0);
}

#[test]
fn skip_until_without_delimiter() {
    let mut c = Cursor::new(b"abc".to_vec());
    assert_eq!(c.skip_until(b'-').unwrap(), 3);
    assert_eq!(c.fill_buf().unwrap().len(), 0);
}

#[test]
fn find_byte_positions() {
    assert_eq!(find_byte(b"a-b-c", 0, b'-'), Some(1));
    assert_eq!(find_byte(b"a-b-c", 2, b'-'), Some(3));
    assert_eq!(find_byte(b"a-b-c", 4, b'-'), None);
    assert_eq!(find_byte(b"", 0, b'-'), None);
}
