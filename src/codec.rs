//! Fixed-width integers as bytes, in big, little or native byte order.
use vstd::prelude::*;

use crate::scan::BufReadExt;
use crate::source::{exact_read_error, handed_on, overwritten, BufSource, IoError, Sink, Source};
use vstd::endian::{endianness, Endian};

verus! {

/// The order in which the bytes of an integer are laid out.
#[derive(Clone, Copy, Debug, PartialEq, Eq, Structural)]
pub enum ByteOrder {
    /// Most significant byte first.
    Big,
    /// Least significant byte first.
    Little,
    /// The order that the hardware uses for integers in memory.
    Native,
}

/// The number of values that `n` bytes can hold: 256 to the power `n`.
pub open spec fn byte_bound(n: nat) -> nat
    decreases n,
{
    if n == 0 {
        1
    } else {
        256 * byte_bound((n - 1) as nat)
    }
}

/// The unsigned value of `s` read least significant byte first.
pub open spec fn le_value(s: Seq<u8>) -> nat
    decreases s.len(),
{
    if s.len() == 0 {
        0
    } else {
        (s[0] as nat + 256 * le_value(s.skip(1))) as nat
    }
}

/// The unsigned value of `s` read most significant byte first: the same
/// bytes in reverse order read least significant first.
pub open spec fn be_value(s: Seq<u8>) -> nat {
    le_value(s.reverse())
}

/// The `n` bytes of `v` modulo `byte_bound(n)`, least significant first.
pub open spec fn le_bytes(v: nat, n: nat) -> Seq<u8>
    decreases n,
{
    if n == 0 {
        Seq::empty()
    } else {
        seq![(v % 256) as u8] + le_bytes(v / 256, (n - 1) as nat)
    }
}

/// The `n` bytes of `v` modulo `byte_bound(n)`, most significant first.
pub open spec fn be_bytes(v: nat, n: nat) -> Seq<u8> {
    le_bytes(v, n).reverse()
}

/// The two's complement bit pattern of `v` in `n` bytes.
pub open spec fn to_unsigned(v: int, n: nat) -> nat {
    if v < 0 {
        (v + byte_bound(n)) as nat
    } else {
        v as nat
    }
}

/// The value of an `n`-byte two's complement bit pattern `u`.
pub open spec fn to_signed(u: nat, n: nat) -> int {
    if n > 0 && 2 * u >= byte_bound(n) {
        u - byte_bound(n)
    } else {
        u as int
    }
}

/// The integer that `s` holds, most significant byte first when `big`, as
/// two's complement when `signed`.
pub open spec fn decode_value(s: Seq<u8>, big: bool, signed: bool) -> int {
    let u = if big {
        be_value(s)
    } else {
        le_value(s)
    };
    if signed {
        to_signed(u, s.len())
    } else {
        u as int
    }
}

/// Whether bytes in the given order come most significant first; the
/// native order is that of the hardware the code runs on.
pub open spec fn big_first(order: ByteOrder) -> bool {
    match order {
        ByteOrder::Big => true,
        ByteOrder::Little => false,
        ByteOrder::Native => endianness() == Endian::Big,
    }
}

/// `v` is the integer that `s` holds in the given order.
pub open spec fn decodes_to(s: Seq<u8>, order: ByteOrder, signed: bool, v: int) -> bool {
    v == decode_value(s, big_first(order), signed)
}

/// The `n` bytes of `v` as two's complement, most significant first when
/// `big`.
pub open spec fn encode_value(v: int, n: nat, big: bool) -> Seq<u8> {
    if big {
        be_bytes(to_unsigned(v, n), n)
    } else {
        le_bytes(to_unsigned(v, n), n)
    }
}

/// `s` is the `n`-byte encoding of `v` in the given order.
pub open spec fn encodes_to(s: Seq<u8>, order: ByteOrder, v: int, n: nat) -> bool {
    s == encode_value(v, n, big_first(order))
}

/// `v` can be written in `n` bytes, as two's complement where `signed`.
pub open spec fn fits(v: int, n: nat, signed: bool) -> bool {
    if signed {
        n > 0 && -byte_bound(n) <= 2 * v < byte_bound(n)
    } else {
        0 <= v < byte_bound(n)
    }
}

/// A value read from `s` is below `byte_bound(s.len())`.
pub proof fn lemma_le_value_bound(s: Seq<u8>)
    ensures
        le_value(s) < byte_bound(s.len()),
    decreases s.len(),
{
    if s.len() > 0 {
        lemma_le_value_bound(s.skip(1));
        let t = le_value(s.skip(1));
        assert(s[0] + 256 * t < 256 * byte_bound((s.len() - 1) as nat)) by (nonlinear_arith)
            requires
                s[0] < 256,
                t < byte_bound((s.len() - 1) as nat),
        ;
    }
}

/// `byte_bound` grows with the number of bytes.
pub proof fn lemma_byte_bound_grows(a: nat, b: nat)
    requires
        a <= b,
    ensures
        1 <= byte_bound(a) <= byte_bound(b),
    decreases b,
{
    if b > a {
        lemma_byte_bound_grows(a, (b - 1) as nat);
    } else if a > 0 {
        lemma_byte_bound_grows((a - 1) as nat, (b - 1) as nat);
    }
}

/// Sixteen bytes hold exactly the values of a `u128`.
proof fn lemma_byte_bound_u128()
    ensures
        byte_bound(16) == u128::MAX + 1,
{
    reveal_with_fuel(byte_bound, 17);
}

/// The encoding of a value in `n` bytes has `n` bytes.
pub proof fn lemma_le_bytes_len(v: nat, n: nat)
    ensures
        le_bytes(v, n).len() == n,
    decreases n,
{
    if n > 0 {
        lemma_le_bytes_len(v / 256, (n - 1) as nat);
    }
}

/// Bytes written least significant first and read back in that order give
/// the value back, when it fits.
pub proof fn lemma_le_round_trip(v: nat, n: nat)
    requires
        v < byte_bound(n),
    ensures
        le_value(le_bytes(v, n)) == v,
    decreases n,
{
    lemma_le_bytes_len(v, n);
    if n > 0 {
        let m = (n - 1) as nat;
        assert(v / 256 < byte_bound(m)) by (nonlinear_arith)
            requires
                v < 256 * byte_bound(m),
        ;
        lemma_le_round_trip(v / 256, m);
        let s = le_bytes(v, n);
        assert(s.skip(1) =~= le_bytes(v / 256, m));
    }
}

/// Reversing twice gives the bytes back.
pub proof fn lemma_reverse_twice(s: Seq<u8>)
    ensures
        s.reverse().reverse() == s,
        s.reverse().len() == s.len(),
{
    assert(s.reverse().reverse() =~= s);
}

/// Bytes written most significant first and read back in that order give
/// the value back, when it fits.
pub proof fn lemma_be_round_trip(v: nat, n: nat)
    requires
        v < byte_bound(n),
    ensures
        be_value(be_bytes(v, n)) == v,
{
    lemma_reverse_twice(le_bytes(v, n));
    lemma_le_round_trip(v, n);
}

/// A two's complement bit pattern read back as signed gives the value back,
/// when it fits.
pub proof fn lemma_signed_round_trip(v: int, n: nat)
    requires
        fits(v, n, true),
    ensures
        to_unsigned(v, n) < byte_bound(n),
        to_signed(to_unsigned(v, n), n) == v,
{
}

/// Encoding an integer that fits in `n` bytes most or least significant
/// byte first, and decoding those bytes the same way, as signed or unsigned
/// as it was encoded, gives the integer back, zero and both extremes
/// included.
pub proof fn lemma_codec_round_trip(v: int, n: nat, big: bool, signed: bool)
    requires
        fits(v, n, signed),
    ensures
        encode_value(v, n, big).len() == n,
        decode_value(encode_value(v, n, big), big, signed) == v,
{
    let u = to_unsigned(v, n);
    if signed {
        lemma_signed_round_trip(v, n);
    }
    lemma_le_bytes_len(u, n);
    lemma_reverse_twice(le_bytes(u, n));
    if big {
        lemma_be_round_trip(u, n);
    } else {
        lemma_le_round_trip(u, n);
    }
}

/// The value of `bytes` read least significant byte first.
pub fn decode_le(bytes: &[u8]) -> (r: u128)
    requires
        bytes@.len() <= 16,
    ensures
        r == le_value(bytes@),
{
    let mut acc: u128 = 0;
    let mut i: usize = bytes.len();
    assert(bytes@.skip(i as int) =~= Seq::<u8>::empty());
    while i > 0
        invariant
            i <= bytes@.len() <= 16,
            acc == le_value(bytes@.skip(i as int)),
        decreases i,
    {
        i = i - 1;
        let ghost rest = bytes@.skip(i + 1);
        proof {
            lemma_le_value_bound(rest);
            lemma_byte_bound_grows(rest.len(), 15);
            lemma_byte_bound_u128();
            assert(byte_bound(16) == 256 * byte_bound(15));
            assert(bytes@.skip(i as int).skip(1) =~= rest);
            assert(bytes[i as int] + 256 * acc < 256 * byte_bound(15)) by (nonlinear_arith)
                requires
                    bytes[i as int] < 256,
                    acc < byte_bound(15),
            ;
        }
        acc = bytes[i] as u128 + 256 * acc;
    }
    assert(bytes@.skip(0) =~= bytes@);
    acc
}

/// The value of `bytes` read most significant byte first.
pub fn decode_be(bytes: &[u8]) -> (r: u128)
    requires
        bytes@.len() <= 16,
    ensures
        r == be_value(bytes@),
{
    let mut acc: u128 = 0;
    let mut i: usize = 0;
    let n = bytes.len();
    assert(bytes@.take(0).reverse() =~= Seq::<u8>::empty());
    while i < n
        invariant
            i <= n == bytes@.len() <= 16,
            acc == le_value(bytes@.take(i as int).reverse()),
        decreases n - i,
    {
        let ghost done = bytes@.take(i as int).reverse();
        let ghost next = bytes@.take(i + 1).reverse();
        proof {
            lemma_le_value_bound(done);
            lemma_byte_bound_grows(done.len(), 15);
            lemma_byte_bound_u128();
            assert(byte_bound(16) == 256 * byte_bound(15));
            assert(next[0] == bytes@[i as int]);
            assert(next.skip(1) =~= done);
            assert(bytes[i as int] + 256 * acc < 256 * byte_bound(15)) by (nonlinear_arith)
                requires
                    bytes[i as int] < 256,
                    acc < byte_bound(15),
            ;
        }
        acc = bytes[i] as u128 + 256 * acc;
        i = i + 1;
    }
    assert(bytes@.take(n as int) =~= bytes@);
    acc
}

/// The `n` bytes of `v`, least significant first.
pub fn encode_le(v: u128, n: usize) -> (r: Vec<u8>)
    requires
        n <= 16,
    ensures
        r@ == le_bytes(v as nat, n as nat),
{
    let mut out: Vec<u8> = Vec::new();
    let mut x = v;
    let mut i: usize = 0;
    assert(out@ + le_bytes(v as nat, n as nat) =~= le_bytes(v as nat, n as nat));
    while i < n
        invariant
            i <= n,
            out@ + le_bytes(x as nat, (n - i) as nat) == le_bytes(v as nat, n as nat),
        decreases n - i,
    {
        let ghost before = out@;
        out.push((x % 256) as u8);
        proof {
            let m = (n - i) as nat;
            assert(le_bytes(x as nat, m) == seq![(x % 256) as u8] + le_bytes(
                (x / 256) as nat,
                (m - 1) as nat,
            ));
            assert(out@ + le_bytes((x / 256) as nat, (m - 1) as nat) =~= before + le_bytes(
                x as nat,
                m,
            ));
        }
        x = x / 256;
        i = i + 1;
    }
    assert(out@ + le_bytes(x as nat, 0) =~= out@);
    out
}

/// The `n` bytes of `v`, most significant first.
pub fn encode_be(v: u128, n: usize) -> (r: Vec<u8>)
    requires
        n <= 16,
    ensures
        r@ == be_bytes(v as nat, n as nat),
{
    let le = encode_le(v, n);
    proof {
        lemma_le_bytes_len(v as nat, n as nat);
    }
    let mut out: Vec<u8> = Vec::new();
    let mut k: usize = 0;
    while k < n
        invariant
            k <= n == le@.len(),
            out@ =~= le@.reverse().take(k as int),
        decreases n - k,
    {
        out.push(le[n - 1 - k]);
        k = k + 1;
    }
    assert(le@.reverse().take(n as int) =~= le@.reverse());
    out
}

/// `byte_bound` for up to fifteen bytes, which fits in a `u128`.
fn byte_bound_exec(n: usize) -> (r: u128)
    requires
        n <= 15,
    ensures
        r == byte_bound(n as nat),
{
    let mut r: u128 = 1;
    let mut i: usize = 0;
    while i < n
        invariant
            i <= n <= 15,
            r == byte_bound(i as nat),
        decreases n - i,
    {
        proof {
            lemma_byte_bound_grows(i as nat, 14);
            lemma_byte_bound_u128();
            reveal_with_fuel(byte_bound, 3);
        }
        r = r * 256;
        i = i + 1;
    }
    r
}

/// The two's complement bit pattern of `v` in `n` bytes.
pub fn to_unsigned_exec(v: i128, n: usize) -> (r: u128)
    requires
        1 <= n <= 16,
        fits(v as int, n as nat, true),
    ensures
        r == to_unsigned(v as int, n as nat),
        r < byte_bound(n as nat),
{
    proof {
        lemma_byte_bound_u128();
    }
    if v >= 0 {
        v as u128
    } else if n == 16 {
        ((v - i128::MIN) as u128) + 0x8000_0000_0000_0000_0000_0000_0000_0000
    } else {
        let b = byte_bound_exec(n);
        proof {
            lemma_byte_bound_grows(n as nat, 15);
            reveal_with_fuel(byte_bound, 16);
        }
        (v + b as i128) as u128
    }
}

/// The value of the `n`-byte two's complement bit pattern `u`.
pub fn to_signed_exec(u: u128, n: usize) -> (r: i128)
    requires
        1 <= n <= 16,
        u < byte_bound(n as nat),
    ensures
        r == to_signed(u as nat, n as nat),
        fits(r as int, n as nat, true),
{
    proof {
        lemma_byte_bound_u128();
    }
    if n == 16 {
        if u >= 0x8000_0000_0000_0000_0000_0000_0000_0000 {
            ((u - 0x8000_0000_0000_0000_0000_0000_0000_0000) as i128) + i128::MIN
        } else {
            u as i128
        }
    } else {
        let b = byte_bound_exec(n);
        proof {
            lemma_byte_bound_grows(n as nat, 15);
            reveal_with_fuel(byte_bound, 16);
        }
        if u >= b - u {
            (u as i128) - (b as i128)
        } else {
            u as i128
        }
    }
}

/// Relies on `u16::to_ne_bytes`: the memory representation of a `u16` in
/// the byte order of the hardware the code runs on.
#[verifier::external_body]
fn native_bytes_u16(v: u16) -> (r: [u8; 2])
    ensures
        r@ == if endianness() == Endian::Big {
            be_bytes(v as nat, 2)
        } else {
            le_bytes(v as nat, 2)
        },
{
    v.to_ne_bytes()
}

/// Settles a byte order to big (`true`) or little (`false`) endian, asking
/// the target for the native one.
fn is_big(order: ByteOrder) -> (big: bool)
    ensures
        big == big_first(order),
{
    match order {
        ByteOrder::Big => true,
        ByteOrder::Little => false,
        ByteOrder::Native => {
            let probe = native_bytes_u16(1);
            proof {
                reveal_with_fuel(le_bytes, 3);
                assert(le_bytes(1, 2)[0] == 1);
                assert(be_bytes(1, 2)[0] == 0);
            }
            probe[0] == 0
        },
    }
}

/// The unsigned value of `bytes` in the given order.
pub fn decode(bytes: &[u8], order: ByteOrder) -> (r: u128)
    requires
        bytes@.len() <= 16,
    ensures
        decodes_to(bytes@, order, false, r as int),
        r < byte_bound(bytes@.len()),
{
    proof {
        lemma_le_value_bound(bytes@);
        lemma_reverse_twice(bytes@);
        lemma_le_value_bound(bytes@.reverse());
    }
    if is_big(order) {
        decode_be(bytes)
    } else {
        decode_le(bytes)
    }
}

/// The `n` bytes of the bit pattern `u` in the given order.
pub fn encode(u: u128, n: usize, order: ByteOrder) -> (r: Vec<u8>)
    requires
        n <= 16,
        u < byte_bound(n as nat),
    ensures
        encodes_to(r@, order, u as int, n as nat),
        r@.len() == n,
{
    proof {
        lemma_le_bytes_len(u as nat, n as nat);
        lemma_reverse_twice(le_bytes(u as nat, n as nat));
    }
    if is_big(order) {
        encode_be(u, n)
    } else {
        encode_le(u, n)
    }
}

/// Reads `n` bytes from `reader`, consuming them, and returns their
/// unsigned value in the given order.
pub fn read_bits<R: Source>(reader: &mut R, n: usize, order: ByteOrder) -> (r: Result<
    u128,
    IoError,
>)
    requires
        n <= 16,
    ensures
        final(reader).infallible() == old(reader).infallible(),
        old(reader).infallible() ==> (r is Ok <==> n <= old(reader).remaining().len()),
        match r {
            Ok(u) => {
                &&& n <= old(reader).remaining().len()
                &&& final(reader).remaining() == old(reader).remaining().skip(n as int)
                &&& u < byte_bound(n as nat)
                &&& decodes_to(old(reader).remaining().take(n as int), order, false, u as int)
            },
            Err(e) => exact_read_error(
                e,
                old(reader).remaining().len(),
                n as nat,
                old(reader).infallible(),
                final(reader).reported(),
            ),
        },
{
    let mut buf: Vec<u8> = vec![0u8; n];
    match reader.read_exact(buf.as_mut_slice()) {
        Ok(()) => Ok(decode(buf.as_slice(), order)),
        Err(e) => Err(e),
    }
}

/// Waits until `n` bytes can be looked at in `reader` and returns their
/// unsigned value in the given order, consuming nothing.
pub fn fill_bits<R: BufSource>(reader: &mut R, n: usize, order: ByteOrder) -> (r: Result<
    u128,
    IoError,
>)
    requires
        n <= 16,
    ensures
        final(reader).remaining() == old(reader).remaining(),
        final(reader).infallible() == old(reader).infallible(),
        old(reader).infallible() ==> (r is Ok <==> n <= old(reader).remaining().len()),
        match r {
            Ok(u) => {
                &&& n <= old(reader).remaining().len()
                &&& u < byte_bound(n as nat)
                &&& decodes_to(old(reader).remaining().take(n as int), order, false, u as int)
            },
            Err(e) => exact_read_error(
                e,
                old(reader).remaining().len(),
                n as nat,
                old(reader).infallible(),
                final(reader).reported(),
            ),
        },
{
    let mut buf: Vec<u8> = vec![0u8; n];
    match reader.fill_exact(buf.as_mut_slice()) {
        Ok(()) => Ok(decode(buf.as_slice(), order)),
        Err(e) => Err(e),
    }
}

/// Writes the `n` bytes of the bit pattern `u` in the given order and
/// returns `n`.
pub fn write_bits<W: Sink>(writer: &mut W, u: u128, n: usize, order: ByteOrder) -> (r: Result<
    usize,
    IoError,
>)
    requires
        n <= 16,
        u < byte_bound(n as nat),
    ensures
        final(writer).accepts_all() == old(writer).accepts_all(),
        old(writer).accepts_all() ==> r is Ok,
        match r {
            Ok(k) => {
                &&& k == n
                &&& final(writer).written() == old(writer).written() + encode_value(
                    u as int,
                    n as nat,
                    big_first(order),
                )
                &&& final(writer).ahead() == overwritten(old(writer).ahead(), n as nat)
            },
            Err(e) => handed_on(e, final(writer).refused()),
        },
{
    let bytes = encode(u, n, order);
    match writer.write_all(bytes.as_slice()) {
        Ok(()) => Ok(n),
        Err(e) => Err(e),
    }
}

/// The byte counts of the fixed-width integers, as numbers of values.
pub proof fn lemma_byte_bounds()
    ensures
        byte_bound(1) == 0x100,
        byte_bound(2) == 0x1_0000,
        byte_bound(4) == 0x1_0000_0000,
        byte_bound(8) == 0x1_0000_0000_0000_0000,
        byte_bound(16) == 0x1_0000_0000_0000_0000_0000_0000_0000_0000,
        byte_bound(vstd::layout::size_of::<usize>()) == usize::MAX + 1,
        vstd::layout::size_of::<usize>() == vstd::layout::size_of::<isize>(),
        vstd::layout::size_of::<usize>() <= 16,
        2 * isize::MIN == -byte_bound(vstd::layout::size_of::<isize>()),
        2 * (isize::MAX + 1) == byte_bound(vstd::layout::size_of::<isize>()),
{
    reveal_with_fuel(byte_bound, 17);
    broadcast use vstd::layout::layout_of_primitives;
    vstd::layout::unsigned_int_max_values();
    vstd::layout::signed_int_min_max_values();
    lemma_byte_bound_pow(vstd::layout::size_of::<usize>());
}

/// `byte_bound` is `pow(256, n)`.
proof fn lemma_byte_bound_pow(n: nat)
    ensures
        byte_bound(n) == vstd::arithmetic::power::pow(256, n),
    decreases n,
{
    reveal(vstd::arithmetic::power::pow);
    if n > 0 {
        lemma_byte_bound_pow((n - 1) as nat);
    }
}

/// A fixed-width integer type, seen as a number of bytes and an integer.
pub trait FixedInt: Sized {
    /// The number of bytes that a value takes.
    spec fn width() -> nat;

    /// Whether the bytes are two's complement.
    spec fn signed() -> bool;

    /// The integer that a value stands for.
    spec fn value(&self) -> int;

    /// A value fits in the width of its type.
    proof fn lemma_fits(&self)
        ensures
            Self::width() <= 16,
            fits(self.value(), Self::width(), Self::signed()),
    ;

    /// Values that stand for the same integer are the same value.
    proof fn lemma_value_injective(&self, other: &Self)
        ensures
            self.value() == other.value() ==> *self == *other,
    ;
}

/// An integer written in some byte order, read back in the same order from
/// the bytes that the write put down, is the integer written: for every
/// value of every fixed-width type, zero and both extremes included.
pub proof fn lemma_read_after_write<T: FixedInt>(v: T, w: T, bytes: Seq<u8>, order: ByteOrder)
    requires
        encodes_to(bytes, order, v.value(), T::width()),
        decodes_to(bytes, order, T::signed(), w.value()),
    ensures
        w == v,
{
    v.lemma_fits();
    lemma_codec_round_trip(v.value(), T::width(), big_first(order), T::signed());
    v.lemma_value_injective(&w);
}

impl FixedInt for u8 {
    open spec fn width() -> nat {
        1
    }

    open spec fn signed() -> bool {
        false
    }

    open spec fn value(&self) -> int {
        *self as int
    }

    proof fn lemma_fits(&self) {
        lemma_byte_bounds();
    }

    proof fn lemma_value_injective(&self, other: &Self) {
    }
}

impl FixedInt for u16 {
    open spec fn width() -> nat {
        2
    }

    open spec fn signed() -> bool {
        false
    }

    open spec fn value(&self) -> int {
        *self as int
    }

    proof fn lemma_fits(&self) {
        lemma_byte_bounds();
    }

    proof fn lemma_value_injective(&self, other: &Self) {
    }
}

impl FixedInt for u32 {
    open spec fn width() -> nat {
        4
    }

    open spec fn signed() -> bool {
        false
    }

    open spec fn value(&self) -> int {
        *self as int
    }

    proof fn lemma_fits(&self) {
        lemma_byte_bounds();
    }

    proof fn lemma_value_injective(&self, other: &Self) {
    }
}

impl FixedInt for u64 {
    open spec fn width() -> nat {
        8
    }

    open spec fn signed() -> bool {
        false
    }

    open spec fn value(&self) -> int {
        *self as int
    }

    proof fn lemma_fits(&self) {
        lemma_byte_bounds();
    }

    proof fn lemma_value_injective(&self, other: &Self) {
    }
}

impl FixedInt for u128 {
    open spec fn width() -> nat {
        16
    }

    open spec fn signed() -> bool {
        false
    }

    open spec fn value(&self) -> int {
        *self as int
    }

    proof fn lemma_fits(&self) {
        lemma_byte_bounds();
    }

    proof fn lemma_value_injective(&self, other: &Self) {
    }
}

impl FixedInt for usize {
    open spec fn width() -> nat {
        vstd::layout::size_of::<usize>()
    }

    open spec fn signed() -> bool {
        false
    }

    open spec fn value(&self) -> int {
        *self as int
    }

    proof fn lemma_fits(&self) {
        lemma_byte_bounds();
    }

    proof fn lemma_value_injective(&self, other: &Self) {
    }
}

impl FixedInt for i8 {
    open spec fn width() -> nat {
        1
    }

    open spec fn signed() -> bool {
        true
    }

    open spec fn value(&self) -> int {
        *self as int
    }

    proof fn lemma_fits(&self) {
        lemma_byte_bounds();
    }

    proof fn lemma_value_injective(&self, other: &Self) {
    }
}

impl FixedInt for i16 {
    open spec fn width() -> nat {
        2
    }

    open spec fn signed() -> bool {
        true
    }

    open spec fn value(&self) -> int {
        *self as int
    }

    proof fn lemma_fits(&self) {
        lemma_byte_bounds();
    }

    proof fn lemma_value_injective(&self, other: &Self) {
    }
}

impl FixedInt for i32 {
    open spec fn width() -> nat {
        4
    }

    open spec fn signed() -> bool {
        true
    }

    open spec fn value(&self) -> int {
        *self as int
    }

    proof fn lemma_fits(&self) {
        lemma_byte_bounds();
    }

    proof fn lemma_value_injective(&self, other: &Self) {
    }
}

impl FixedInt for i64 {
    open spec fn width() -> nat {
        8
    }

    open spec fn signed() -> bool {
        true
    }

    open spec fn value(&self) -> int {
        *self as int
    }

    proof fn lemma_fits(&self) {
        lemma_byte_bounds();
    }

    proof fn lemma_value_injective(&self, other: &Self) {
    }
}

impl FixedInt for i128 {
    open spec fn width() -> nat {
        16
    }

    open spec fn signed() -> bool {
        true
    }

    open spec fn value(&self) -> int {
        *self as int
    }

    proof fn lemma_fits(&self) {
        lemma_byte_bounds();
    }

    proof fn lemma_value_injective(&self, other: &Self) {
    }
}

impl FixedInt for isize {
    open spec fn width() -> nat {
        vstd::layout::size_of::<isize>()
    }

    open spec fn signed() -> bool {
        true
    }

    open spec fn value(&self) -> int {
        *self as int
    }

    proof fn lemma_fits(&self) {
        lemma_byte_bounds();
    }

    proof fn lemma_value_injective(&self, other: &Self) {
    }
}

} // verus!
