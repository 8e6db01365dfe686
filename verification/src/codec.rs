//! Fixed-width little-endian integers, byte runs and strings, read from and
//! written to a byte buffer at a cursor.
//!
//! The reads and writes themselves are done by the `byte` crate; this module
//! states what they do and proves what follows from that.

use vstd::prelude::*;
use vstd::bytes::*;
use vstd::utf8::*;
use byte::BytesExt;
use crate::error::Error;
use crate::index::{NzPoolIndex, PoolIndex};

verus! {

/// Why `n` bytes cannot be taken at `pos` from a buffer of `len` bytes, if
/// they cannot: the cursor is past the end, or the buffer ends too early.
pub open spec fn span_error(len: nat, pos: int, n: int) -> Option<Error> {
    if pos < 0 || pos > len {
        Some(Error::BadOffset(pos as usize))
    } else if len - pos < n {
        Some(Error::Incomplete)
    } else {
        None
    }
}

/// `bytes` holds `data` at `pos`.
pub open spec fn holds_at(bytes: Seq<u8>, pos: int, data: Seq<u8>) -> bool {
    &&& 0 <= pos
    &&& pos + data.len() <= bytes.len()
    &&& bytes.subrange(pos, pos + data.len()) == data
}

/// `bytes` with `data` laid over it from `pos` on.
pub open spec fn overlay(bytes: Seq<u8>, pos: int, data: Seq<u8>) -> Seq<u8> {
    bytes.subrange(0, pos) + data + bytes.subrange(pos + data.len(), bytes.len() as int)
}

/// A byte, as bytes.
pub open spec fn le8(v: u8) -> Seq<u8> {
    seq![v]
}

/// A `u16` as two bytes, the least significant first.
pub open spec fn le16(v: u16) -> Seq<u8> {
    spec_u16_to_le_bytes(v)
}

/// A `u32` as four bytes, the least significant first.
pub open spec fn le32(v: u32) -> Seq<u8> {
    spec_u32_to_le_bytes(v)
}

/// A `u64` as eight bytes, the least significant first.
pub open spec fn le64(v: u64) -> Seq<u8> {
    spec_u64_to_le_bytes(v)
}

/// The truth value that a byte stands for: anything but zero is true.
pub open spec fn bool_of(v: u8) -> bool {
    v != 0
}

/// The byte that stands for a truth value.
pub open spec fn bool_bits(b: bool) -> u8 {
    if b { 1 } else { 0 }
}

/// The signed number whose two's complement pattern is `v`.
pub open spec fn i8_of(v: u8) -> i8 {
    if v < 0x80 { v as i8 } else { (v - 0x100) as i8 }
}

/// The two's complement pattern of `v`.
pub open spec fn i8_bits(v: i8) -> u8 {
    if v >= 0 { v as u8 } else { (v + 0x100) as u8 }
}

/// The signed number whose two's complement pattern is `v`.
pub open spec fn i16_of(v: u16) -> i16 {
    if v < 0x8000 { v as i16 } else { (v - 0x1_0000) as i16 }
}

/// The two's complement pattern of `v`.
pub open spec fn i16_bits(v: i16) -> u16 {
    if v >= 0 { v as u16 } else { (v + 0x1_0000) as u16 }
}

/// The signed number whose two's complement pattern is `v`.
pub open spec fn i32_of(v: u32) -> i32 {
    if v < 0x8000_0000 { v as i32 } else { (v - 0x1_0000_0000) as i32 }
}

/// The two's complement pattern of `v`.
pub open spec fn i32_bits(v: i32) -> u32 {
    if v >= 0 { v as u32 } else { (v + 0x1_0000_0000) as u32 }
}

/// The signed number whose two's complement pattern is `v`.
pub open spec fn i64_of(v: u64) -> i64 {
    if v < 0x8000_0000_0000_0000 { v as i64 } else { (v - 0x1_0000_0000_0000_0000) as i64 }
}

/// The two's complement pattern of `v`.
pub open spec fn i64_bits(v: i64) -> u64 {
    if v >= 0 { v as u64 } else { (v + 0x1_0000_0000_0000_0000) as u64 }
}

/// A handle's number followed by four bytes of padding.
pub open spec fn padded(v: u32) -> Seq<u8> {
    le32(v) + le32(0)
}

/// The byte at `pos`, and the position after it.
pub open spec fn parse_u8(bytes: Seq<u8>, pos: int) -> Result<(u8, int), Error> {
    match span_error(bytes.len(), pos, 1) {
        Some(e) => Err(e),
        None => Ok((bytes[pos], pos + 1)),
    }
}

/// The little-endian `u16` at `pos`, and the position after it.
pub open spec fn parse_u16(bytes: Seq<u8>, pos: int) -> Result<(u16, int), Error> {
    match span_error(bytes.len(), pos, 2) {
        Some(e) => Err(e),
        None => Ok((spec_u16_from_le_bytes(bytes.subrange(pos, pos + 2)), pos + 2)),
    }
}

/// The little-endian `u32` at `pos`, and the position after it.
pub open spec fn parse_u32(bytes: Seq<u8>, pos: int) -> Result<(u32, int), Error> {
    match span_error(bytes.len(), pos, 4) {
        Some(e) => Err(e),
        None => Ok((spec_u32_from_le_bytes(bytes.subrange(pos, pos + 4)), pos + 4)),
    }
}

/// The little-endian `u64` at `pos`, and the position after it.
pub open spec fn parse_u64(bytes: Seq<u8>, pos: int) -> Result<(u64, int), Error> {
    match span_error(bytes.len(), pos, 8) {
        Some(e) => Err(e),
        None => Ok((spec_u64_from_le_bytes(bytes.subrange(pos, pos + 8)), pos + 8)),
    }
}

/// The `i8` at `pos`, and the position after it.
pub open spec fn parse_i8(bytes: Seq<u8>, pos: int) -> Result<(i8, int), Error> {
    match parse_u8(bytes, pos) {
        Ok((v, to)) => Ok((i8_of(v), to)),
        Err(e) => Err(e),
    }
}

/// The `i16` at `pos`, and the position after it.
pub open spec fn parse_i16(bytes: Seq<u8>, pos: int) -> Result<(i16, int), Error> {
    match parse_u16(bytes, pos) {
        Ok((v, to)) => Ok((i16_of(v), to)),
        Err(e) => Err(e),
    }
}

/// The `i32` at `pos`, and the position after it.
pub open spec fn parse_i32(bytes: Seq<u8>, pos: int) -> Result<(i32, int), Error> {
    match parse_u32(bytes, pos) {
        Ok((v, to)) => Ok((i32_of(v), to)),
        Err(e) => Err(e),
    }
}

/// The `i64` at `pos`, and the position after it.
pub open spec fn parse_i64(bytes: Seq<u8>, pos: int) -> Result<(i64, int), Error> {
    match parse_u64(bytes, pos) {
        Ok((v, to)) => Ok((i64_of(v), to)),
        Err(e) => Err(e),
    }
}

/// The truth value at `pos`, and the position after it.
pub open spec fn parse_bool(bytes: Seq<u8>, pos: int) -> Result<(bool, int), Error> {
    match parse_u8(bytes, pos) {
        Ok((v, to)) => Ok((bool_of(v), to)),
        Err(e) => Err(e),
    }
}

/// The `n` bytes at `pos`, and the position after them.
pub open spec fn parse_bytes(bytes: Seq<u8>, pos: int, n: nat) -> Result<(Seq<u8>, int), Error> {
    match span_error(bytes.len(), pos, n as int) {
        Some(e) => Err(e),
        None => Ok((bytes.subrange(pos, pos + n), pos + n)),
    }
}

/// The error that invalid UTF-8 is answered with.
pub open spec fn utf8_error() -> Error {
    Error::BadInput { err: "UTF8 Error" }
}

/// The text held by the `n` bytes at `pos`, and the position after them.
pub open spec fn parse_str(bytes: Seq<u8>, pos: int, n: nat) -> Result<(Seq<char>, int), Error> {
    match span_error(bytes.len(), pos, n as int) {
        Some(e) => Err(e),
        None => if valid_utf8(bytes.subrange(pos, pos + n)) {
            Ok((decode_utf8(bytes.subrange(pos, pos + n)), pos + n))
        } else {
            Err(utf8_error())
        },
    }
}

/// The position of the first zero byte at or after `pos`, or the buffer's
/// length if there is none.
pub open spec fn zero_from(bytes: Seq<u8>, pos: int) -> int
    decreases bytes.len() - pos,
{
    if pos < 0 || pos >= bytes.len() {
        bytes.len() as int
    } else if bytes[pos] == 0 {
        pos
    } else {
        zero_from(bytes, pos + 1)
    }
}

/// The zero-terminated text that starts at `pos`, and the position after its
/// terminator.
pub open spec fn parse_cstr(bytes: Seq<u8>, pos: int) -> Result<(Seq<char>, int), Error> {
    if pos < 0 || pos > bytes.len() {
        Err(Error::BadOffset(pos as usize))
    } else if zero_from(bytes, pos) >= bytes.len() {
        Err(Error::Incomplete)
    } else if valid_utf8(bytes.subrange(pos, zero_from(bytes, pos))) {
        Ok((decode_utf8(bytes.subrange(pos, zero_from(bytes, pos))), zero_from(bytes, pos) + 1))
    } else {
        Err(utf8_error())
    }
}

/// The error that a zero is answered with where a definition must be named.
pub open spec fn zero_index_error() -> Error {
    Error::BadInput { err: "index must not be zero" }
}

/// The string pool handle at `pos`, and the position after it.
pub open spec fn parse_pool<A>(bytes: Seq<u8>, pos: int) -> Result<(PoolIndex<A>, int), Error> {
    match parse_u32(bytes, pos) {
        Ok((v, to)) => Ok((PoolIndex::<A>::spec_new(v), to)),
        Err(e) => Err(e),
    }
}

/// The definition handle at `pos`, and the position after it.
pub open spec fn parse_nz<A>(bytes: Seq<u8>, pos: int) -> Result<(NzPoolIndex<A>, int), Error> {
    match parse_u32(bytes, pos) {
        Ok((v, to)) => if v == 0 {
            Err(zero_index_error())
        } else {
            Ok((NzPoolIndex::<A>::spec_of(v), to))
        },
        Err(e) => Err(e),
    }
}

/// The optional definition handle at `pos`, where zero stands for none, and
/// the position after it.
pub open spec fn parse_opt_nz<A>(
    bytes: Seq<u8>,
    pos: int,
) -> Result<(Option<NzPoolIndex<A>>, int), Error> {
    match parse_u32(bytes, pos) {
        Ok((v, to)) => Ok((crate::index::opt_index_of::<A>(v), to)),
        Err(e) => Err(e),
    }
}

/// The padded string pool handle at `pos`, and the position after it. What
/// the padding holds is not looked at.
pub open spec fn parse_pool_padded<A>(
    bytes: Seq<u8>,
    pos: int,
) -> Result<(PoolIndex<A>, int), Error> {
    match parse_u32(bytes, pos) {
        Ok((v, to)) => match parse_u32(bytes, to) {
            Ok((_, end)) => Ok((PoolIndex::<A>::spec_new(v), end)),
            Err(e) => Err(e),
        },
        Err(e) => Err(e),
    }
}

/// The padded definition handle at `pos`, and the position after it. What
/// the padding holds is not looked at.
pub open spec fn parse_nz_padded<A>(
    bytes: Seq<u8>,
    pos: int,
) -> Result<(NzPoolIndex<A>, int), Error> {
    match parse_u32(bytes, pos) {
        Ok((v, to)) => match parse_u32(bytes, to) {
            Ok((_, end)) => if v == 0 {
                Err(zero_index_error())
            } else {
                Ok((NzPoolIndex::<A>::spec_of(v), end))
            },
            Err(e) => Err(e),
        },
        Err(e) => Err(e),
    }
}

/// What a read leaves behind: the value and the advanced cursor, or the
/// error and the old cursor.
pub open spec fn was_read<T>(
    expected: Result<(T, int), Error>,
    pos: int,
    r: Result<T, Error>,
    next: int,
) -> bool {
    match expected {
        Ok((v, to)) => r == Ok::<T, Error>(v) && next == to,
        Err(e) => r == Err::<T, Error>(e) && next == pos,
    }
}

/// What a write of `data` at `pos` leaves behind: the error and the old
/// cursor where `data` does not fit, the overlaid buffer and the advanced
/// cursor where it does.
pub open spec fn written(
    before: Seq<u8>,
    pos: int,
    data: Seq<u8>,
    r: Result<(), Error>,
    after: Seq<u8>,
    next: int,
) -> bool {
    match span_error(before.len(), pos, data.len() as int) {
        Some(e) => r == Err::<(), Error>(e) && next == pos && after == before,
        None => r is Ok && next == pos + data.len() && after == overlay(before, pos, data),
    }
}

/// Reads one byte with `byte`'s `read_with`. A cursor past the end is
/// answered with `BadOffset`, too few bytes with `Incomplete`; the cursor
/// moves only on success.
#[verifier::external_body]
pub(crate) fn read_u8(bytes: &[u8], offset: &mut usize) -> (r: Result<u8, Error>)
    ensures
        was_read(
            parse_u8(bytes@, *old(offset) as int),
            *old(offset) as int,
            r,
            *final(offset) as int,
        ),
{
    match bytes.read_with::<u8>(offset, byte::LE) {
        Ok(v) => Ok(v),
        Err(byte::Error::Incomplete) => Err(Error::Incomplete),
        Err(byte::Error::BadOffset(at)) => Err(Error::BadOffset(at)),
        Err(byte::Error::BadInput { err }) => Err(Error::BadInput { err }),
    }
}

/// Reads a little-endian `u16` with `byte`'s `read_with`. A cursor past the
/// end is answered with `BadOffset`, too few bytes with `Incomplete`; the
/// cursor moves only on success.
#[verifier::external_body]
pub(crate) fn read_u16(bytes: &[u8], offset: &mut usize) -> (r: Result<u16, Error>)
    ensures
        was_read(
            parse_u16(bytes@, *old(offset) as int),
            *old(offset) as int,
            r,
            *final(offset) as int,
        ),
{
    match bytes.read_with::<u16>(offset, byte::LE) {
        Ok(v) => Ok(v),
        Err(byte::Error::Incomplete) => Err(Error::Incomplete),
        Err(byte::Error::BadOffset(at)) => Err(Error::BadOffset(at)),
        Err(byte::Error::BadInput { err }) => Err(Error::BadInput { err }),
    }
}

/// Reads a little-endian `u32` with `byte`'s `read_with`. A cursor past the
/// end is answered with `BadOffset`, too few bytes with `Incomplete`; the
/// cursor moves only on success.
#[verifier::external_body]
pub(crate) fn read_u32(bytes: &[u8], offset: &mut usize) -> (r: Result<u32, Error>)
    ensures
        was_read(
            parse_u32(bytes@, *old(offset) as int),
            *old(offset) as int,
            r,
            *final(offset) as int,
        ),
{
    match bytes.read_with::<u32>(offset, byte::LE) {
        Ok(v) => Ok(v),
        Err(byte::Error::Incomplete) => Err(Error::Incomplete),
        Err(byte::Error::BadOffset(at)) => Err(Error::BadOffset(at)),
        Err(byte::Error::BadInput { err }) => Err(Error::BadInput { err }),
    }
}

/// Reads a little-endian `u64` with `byte`'s `read_with`. A cursor past the
/// end is answered with `BadOffset`, too few bytes with `Incomplete`; the
/// cursor moves only on success.
#[verifier::external_body]
pub(crate) fn read_u64(bytes: &[u8], offset: &mut usize) -> (r: Result<u64, Error>)
    ensures
        was_read(
            parse_u64(bytes@, *old(offset) as int),
            *old(offset) as int,
            r,
            *final(offset) as int,
        ),
{
    match bytes.read_with::<u64>(offset, byte::LE) {
        Ok(v) => Ok(v),
        Err(byte::Error::Incomplete) => Err(Error::Incomplete),
        Err(byte::Error::BadOffset(at)) => Err(Error::BadOffset(at)),
        Err(byte::Error::BadInput { err }) => Err(Error::BadInput { err }),
    }
}

/// Borrows the `len` bytes at the cursor with `byte`'s `read_with`, under
/// the same rules as the integer reads.
#[verifier::external_body]
pub(crate) fn read_bytes<'a>(
    bytes: &'a [u8],
    offset: &mut usize,
    len: usize,
) -> (r: Result<&'a [u8], Error>)
    ensures
        match parse_bytes(bytes@, *old(offset) as int, len as nat) {
            Ok((v, to)) => r is Ok && r->Ok_0@ == v && *final(offset) == to,
            Err(e) => r == Err::<&[u8], Error>(e) && *final(offset) == *old(offset),
        },
{
    match bytes.read_with::<&'a [u8]>(offset, byte::ctx::Bytes::Len(len)) {
        Ok(v) => Ok(v),
        Err(byte::Error::Incomplete) => Err(Error::Incomplete),
        Err(byte::Error::BadOffset(at)) => Err(Error::BadOffset(at)),
        Err(byte::Error::BadInput { err }) => Err(Error::BadInput { err }),
    }
}

/// Borrows the text held by the `len` bytes at the cursor with `byte`'s
/// `read_with`. Bytes that are not UTF-8 are answered with `BadInput`.
#[verifier::external_body]
pub(crate) fn read_str<'a>(
    bytes: &'a [u8],
    offset: &mut usize,
    len: usize,
) -> (r: Result<&'a str, Error>)
    ensures
        match parse_str(bytes@, *old(offset) as int, len as nat) {
            Ok((v, to)) => r is Ok && r->Ok_0@ == v && *final(offset) == to,
            Err(e) => r == Err::<&str, Error>(e) && *final(offset) == *old(offset),
        },
{
    match bytes.read_with::<&'a str>(offset, byte::ctx::Str::Len(len)) {
        Ok(v) => Ok(v),
        Err(byte::Error::Incomplete) => Err(Error::Incomplete),
        Err(byte::Error::BadOffset(at)) => Err(Error::BadOffset(at)),
        Err(byte::Error::BadInput { err }) => Err(Error::BadInput { err }),
    }
}

/// Borrows the zero-terminated text at the cursor with `byte`'s `read_with`
/// and moves the cursor past the terminator. A missing terminator is
/// answered with `Incomplete`, bytes that are not UTF-8 with `BadInput`.
#[verifier::external_body]
pub(crate) fn read_cstr<'a>(bytes: &'a [u8], offset: &mut usize) -> (r: Result<&'a str, Error>)
    ensures
        match parse_cstr(bytes@, *old(offset) as int) {
            Ok((v, to)) => r is Ok && r->Ok_0@ == v && *final(offset) == to,
            Err(e) => r == Err::<&str, Error>(e) && *final(offset) == *old(offset),
        },
{
    match bytes.read_with::<&'a str>(offset, byte::ctx::Str::Delimiter(0)) {
        Ok(v) => Ok(v),
        Err(byte::Error::Incomplete) => Err(Error::Incomplete),
        Err(byte::Error::BadOffset(at)) => Err(Error::BadOffset(at)),
        Err(byte::Error::BadInput { err }) => Err(Error::BadInput { err }),
    }
}

/// Writes one byte with `byte`'s `write_with`, over the bytes that
/// were there. Where the value does not fit, the buffer and the cursor stay
/// as they were.
#[verifier::external_body]
pub(crate) fn write_u8(bytes: &mut [u8], offset: &mut usize, value: u8) -> (r: Result<(), Error>)
    ensures
        written(
            old(bytes)@,
            *old(offset) as int,
            le8(value),
            r,
            final(bytes)@,
            *final(offset) as int,
        ),
{
    match bytes.write_with::<u8>(offset, value, byte::LE) {
        Ok(v) => Ok(v),
        Err(byte::Error::Incomplete) => Err(Error::Incomplete),
        Err(byte::Error::BadOffset(at)) => Err(Error::BadOffset(at)),
        Err(byte::Error::BadInput { err }) => Err(Error::BadInput { err }),
    }
}

/// Writes a little-endian `u16` with `byte`'s `write_with`, over the bytes that
/// were there. Where the value does not fit, the buffer and the cursor stay
/// as they were.
#[verifier::external_body]
pub(crate) fn write_u16(bytes: &mut [u8], offset: &mut usize, value: u16) -> (r: Result<(), Error>)
    ensures
        written(
            old(bytes)@,
            *old(offset) as int,
            le16(value),
            r,
            final(bytes)@,
            *final(offset) as int,
        ),
{
    match bytes.write_with::<u16>(offset, value, byte::LE) {
        Ok(v) => Ok(v),
        Err(byte::Error::Incomplete) => Err(Error::Incomplete),
        Err(byte::Error::BadOffset(at)) => Err(Error::BadOffset(at)),
        Err(byte::Error::BadInput { err }) => Err(Error::BadInput { err }),
    }
}

/// Writes a little-endian `u32` with `byte`'s `write_with`, over the bytes that
/// were there. Where the value does not fit, the buffer and the cursor stay
/// as they were.
#[verifier::external_body]
pub(crate) fn write_u32(bytes: &mut [u8], offset: &mut usize, value: u32) -> (r: Result<(), Error>)
    ensures
        written(
            old(bytes)@,
            *old(offset) as int,
            le32(value),
            r,
            final(bytes)@,
            *final(offset) as int,
        ),
{
    match bytes.write_with::<u32>(offset, value, byte::LE) {
        Ok(v) => Ok(v),
        Err(byte::Error::Incomplete) => Err(Error::Incomplete),
        Err(byte::Error::BadOffset(at)) => Err(Error::BadOffset(at)),
        Err(byte::Error::BadInput { err }) => Err(Error::BadInput { err }),
    }
}

/// Writes a little-endian `u64` with `byte`'s `write_with`, over the bytes that
/// were there. Where the value does not fit, the buffer and the cursor stay
/// as they were.
#[verifier::external_body]
pub(crate) fn write_u64(bytes: &mut [u8], offset: &mut usize, value: u64) -> (r: Result<(), Error>)
    ensures
        written(
            old(bytes)@,
            *old(offset) as int,
            le64(value),
            r,
            final(bytes)@,
            *final(offset) as int,
        ),
{
    match bytes.write_with::<u64>(offset, value, byte::LE) {
        Ok(v) => Ok(v),
        Err(byte::Error::Incomplete) => Err(Error::Incomplete),
        Err(byte::Error::BadOffset(at)) => Err(Error::BadOffset(at)),
        Err(byte::Error::BadInput { err }) => Err(Error::BadInput { err }),
    }
}

/// Copies `data` into the buffer at the cursor with `byte`'s `write_with`,
/// under the same rules as the integer writes.
#[verifier::external_body]
pub(crate) fn write_bytes(
    bytes: &mut [u8],
    offset: &mut usize,
    data: &[u8],
) -> (r: Result<(), Error>)
    ensures
        written(old(bytes)@, *old(offset) as int, data@, r, final(bytes)@, *final(offset) as int),
{
    match bytes.write_with::<&[u8]>(offset, data, ()) {
        Ok(v) => Ok(v),
        Err(byte::Error::Incomplete) => Err(Error::Incomplete),
        Err(byte::Error::BadOffset(at)) => Err(Error::BadOffset(at)),
        Err(byte::Error::BadInput { err }) => Err(Error::BadInput { err }),
    }
}

/// What a decoder hands back: the value and the position after it, or the
/// error.
pub open spec fn parsed<T>(
    expected: Result<(T, int), Error>,
    r: Result<(T, usize), Error>,
) -> bool {
    match expected {
        Ok((v, to)) => r == Ok::<(T, usize), Error>((v, to as usize)) && 0 <= to <= usize::MAX,
        Err(e) => r == Err::<(T, usize), Error>(e),
    }
}

/// What a decoder of a value with a view hands back: a value with the
/// expected view and the position after it, or the error.
pub open spec fn decoded<T: View>(
    expected: Result<(T::V, int), Error>,
    r: Result<(T, usize), Error>,
) -> bool {
    match expected {
        Ok((v, to)) => r is Ok && r->Ok_0.0@ == v && r->Ok_0.1 == to,
        Err(e) => r == Err::<(T, usize), Error>(e),
    }
}

/// What an encoder that was given room leaves behind: `data` laid over the
/// buffer at `pos`, and the position after it.
pub open spec fn laid(
    before: Seq<u8>,
    pos: int,
    data: Seq<u8>,
    r: Result<usize, Error>,
    after: Seq<u8>,
) -> bool {
    &&& r is Ok
    &&& r->Ok_0 == pos + data.len()
    &&& after == overlay(before, pos, data)
}

/// What an encoder that checks for room leaves behind: `data` laid over the
/// buffer, or the error and the buffer as it was.
pub open spec fn encoded(
    before: Seq<u8>,
    pos: int,
    data: Seq<u8>,
    r: Result<usize, Error>,
    after: Seq<u8>,
) -> bool {
    match span_error(before.len(), pos, data.len() as int) {
        Some(e) => r == Err::<usize, Error>(e) && after == before,
        None => laid(before, pos, data, r, after),
    }
}

/// What a measuring function hands back: the length, if the value is
/// encodable and the length fits in 32 bits.
pub open spec fn measured(encodable: bool, len: nat) -> Option<u32> {
    if encodable && len <= u32::MAX {
        Some(len as u32)
    } else {
        None
    }
}

/// The `u8` at `pos` and the position after it.
pub fn take_u8(bytes: &[u8], pos: usize) -> (r: Result<(u8, usize), Error>)
    ensures
        parsed(parse_u8(bytes@, pos as int), r),
{
    let mut at: usize = pos;
    let v: u8 = read_u8(bytes, &mut at)?;
    Ok((v, at))
}

/// The `u16` at `pos` and the position after it.
pub fn take_u16(bytes: &[u8], pos: usize) -> (r: Result<(u16, usize), Error>)
    ensures
        parsed(parse_u16(bytes@, pos as int), r),
{
    let mut at: usize = pos;
    let v: u16 = read_u16(bytes, &mut at)?;
    Ok((v, at))
}

/// The `u32` at `pos` and the position after it.
pub fn take_u32(bytes: &[u8], pos: usize) -> (r: Result<(u32, usize), Error>)
    ensures
        parsed(parse_u32(bytes@, pos as int), r),
{
    let mut at: usize = pos;
    let v: u32 = read_u32(bytes, &mut at)?;
    Ok((v, at))
}

/// The `u64` at `pos` and the position after it.
pub fn take_u64(bytes: &[u8], pos: usize) -> (r: Result<(u64, usize), Error>)
    ensures
        parsed(parse_u64(bytes@, pos as int), r),
{
    let mut at: usize = pos;
    let v: u64 = read_u64(bytes, &mut at)?;
    Ok((v, at))
}

/// The signed number whose two's complement pattern is `v`.
pub fn i8_from_bits(v: u8) -> (r: i8)
    ensures
        r == i8_of(v),
{
    if v < 0x80 {
        v as i8
    } else {
        ((v - 0x80) as i8) + i8::MIN
    }
}

/// The `i8` at `pos` and the position after it.
pub fn take_i8(bytes: &[u8], pos: usize) -> (r: Result<(i8, usize), Error>)
    ensures
        parsed(parse_i8(bytes@, pos as int), r),
{
    let (v, at) = take_u8(bytes, pos)?;
    Ok((i8_from_bits(v), at))
}

/// The signed number whose two's complement pattern is `v`.
pub fn i16_from_bits(v: u16) -> (r: i16)
    ensures
        r == i16_of(v),
{
    if v < 0x8000 {
        v as i16
    } else {
        ((v - 0x8000) as i16) + i16::MIN
    }
}

/// The `i16` at `pos` and the position after it.
pub fn take_i16(bytes: &[u8], pos: usize) -> (r: Result<(i16, usize), Error>)
    ensures
        parsed(parse_i16(bytes@, pos as int), r),
{
    let (v, at) = take_u16(bytes, pos)?;
    Ok((i16_from_bits(v), at))
}

/// The signed number whose two's complement pattern is `v`.
pub fn i32_from_bits(v: u32) -> (r: i32)
    ensures
        r == i32_of(v),
{
    if v < 0x8000_0000 {
        v as i32
    } else {
        ((v - 0x8000_0000) as i32) + i32::MIN
    }
}

/// The `i32` at `pos` and the position after it.
pub fn take_i32(bytes: &[u8], pos: usize) -> (r: Result<(i32, usize), Error>)
    ensures
        parsed(parse_i32(bytes@, pos as int), r),
{
    let (v, at) = take_u32(bytes, pos)?;
    Ok((i32_from_bits(v), at))
}

/// The signed number whose two's complement pattern is `v`.
pub fn i64_from_bits(v: u64) -> (r: i64)
    ensures
        r == i64_of(v),
{
    if v < 0x8000_0000_0000_0000 {
        v as i64
    } else {
        ((v - 0x8000_0000_0000_0000) as i64) + i64::MIN
    }
}

/// The `i64` at `pos` and the position after it.
pub fn take_i64(bytes: &[u8], pos: usize) -> (r: Result<(i64, usize), Error>)
    ensures
        parsed(parse_i64(bytes@, pos as int), r),
{
    let (v, at) = take_u64(bytes, pos)?;
    Ok((i64_from_bits(v), at))
}

/// The truth value at `pos` and the position after it.
pub fn take_bool(bytes: &[u8], pos: usize) -> (r: Result<(bool, usize), Error>)
    ensures
        parsed(parse_bool(bytes@, pos as int), r),
{
    let (v, at) = take_u8(bytes, pos)?;
    Ok((v != 0, at))
}

/// The `len` bytes at `pos` and the position after them.
pub fn take_bytes<'a>(
    bytes: &'a [u8],
    pos: usize,
    len: usize,
) -> (r: Result<(&'a [u8], usize), Error>)
    ensures
        match parse_bytes(bytes@, pos as int, len as nat) {
            Ok((v, to)) => r is Ok && r->Ok_0.0@ == v && r->Ok_0.1 == to,
            Err(e) => r == Err::<(&[u8], usize), Error>(e),
        },
{
    let mut at: usize = pos;
    let v = read_bytes(bytes, &mut at, len)?;
    Ok((v, at))
}

/// The text held by the `len` bytes at `pos`, and the position after them.
pub fn take_str<'a>(bytes: &'a [u8], pos: usize, len: usize) -> (r: Result<(&'a str, usize), Error>)
    ensures
        match parse_str(bytes@, pos as int, len as nat) {
            Ok((v, to)) => r is Ok && r->Ok_0.0@ == v && r->Ok_0.1 == to,
            Err(e) => r == Err::<(&str, usize), Error>(e),
        },
{
    let mut at: usize = pos;
    let v = read_str(bytes, &mut at, len)?;
    Ok((v, at))
}

/// The zero-terminated text at `pos`, and the position after its terminator.
pub fn take_cstr<'a>(bytes: &'a [u8], pos: usize) -> (r: Result<(&'a str, usize), Error>)
    ensures
        match parse_cstr(bytes@, pos as int) {
            Ok((v, to)) => r is Ok && r->Ok_0.0@ == v && r->Ok_0.1 == to,
            Err(e) => r == Err::<(&str, usize), Error>(e),
        },
{
    let mut at: usize = pos;
    let v = read_cstr(bytes, &mut at)?;
    Ok((v, at))
}

/// The string pool handle at `pos` and the position after it.
pub fn take_pool<A>(bytes: &[u8], pos: usize) -> (r: Result<(PoolIndex<A>, usize), Error>)
    ensures
        parsed(parse_pool::<A>(bytes@, pos as int), r),
{
    let (v, at) = take_u32(bytes, pos)?;
    Ok((PoolIndex::new(v), at))
}

/// The definition handle at `pos` and the position after it.
pub fn take_nz<A>(bytes: &[u8], pos: usize) -> (r: Result<(NzPoolIndex<A>, usize), Error>)
    ensures
        parsed(parse_nz::<A>(bytes@, pos as int), r),
{
    let (v, at) = take_u32(bytes, pos)?;
    match NzPoolIndex::new(v) {
        Some(index) => Ok((index, at)),
        None => Err(Error::BadInput { err: "index must not be zero" }),
    }
}

/// The optional definition handle at `pos` and the position after it.
pub fn take_opt_nz<A>(bytes: &[u8], pos: usize) -> (r: Result<
    (Option<NzPoolIndex<A>>, usize),
    Error,
>)
    ensures
        parsed(parse_opt_nz::<A>(bytes@, pos as int), r),
{
    let (v, at) = take_u32(bytes, pos)?;
    Ok((NzPoolIndex::new(v), at))
}

/// The padded string pool handle at `pos` and the position after it.
pub fn take_pool_padded<A>(bytes: &[u8], pos: usize) -> (r: Result<(PoolIndex<A>, usize), Error>)
    ensures
        parsed(parse_pool_padded::<A>(bytes@, pos as int), r),
{
    let (v, at) = take_u32(bytes, pos)?;
    let (_, end) = take_u32(bytes, at)?;
    Ok((PoolIndex::new(v), end))
}

/// The padded definition handle at `pos` and the position after it.
pub fn take_nz_padded<A>(bytes: &[u8], pos: usize) -> (r: Result<(NzPoolIndex<A>, usize), Error>)
    ensures
        parsed(parse_nz_padded::<A>(bytes@, pos as int), r),
{
    let (v, at) = take_u32(bytes, pos)?;
    let (_, end) = take_u32(bytes, at)?;
    match NzPoolIndex::new(v) {
        Some(index) => Ok((index, end)),
        None => Err(Error::BadInput { err: "index must not be zero" }),
    }
}

/// Lays a `u8` over the buffer at `pos`.
pub(crate) fn put_u8(bytes: &mut [u8], pos: usize, v: u8) -> (r: Result<usize, Error>)
    requires
        pos + 1 <= old(bytes)@.len(),
    ensures
        laid(old(bytes)@, pos as int, le8(v), r, final(bytes)@),
{
    proof {
        lemma_le_len();
    }
    let mut at: usize = pos;
    write_u8(bytes, &mut at, v)?;
    Ok(at)
}

/// Lays a `u16` over the buffer at `pos`.
pub(crate) fn put_u16(bytes: &mut [u8], pos: usize, v: u16) -> (r: Result<usize, Error>)
    requires
        pos + 2 <= old(bytes)@.len(),
    ensures
        laid(old(bytes)@, pos as int, le16(v), r, final(bytes)@),
{
    proof {
        lemma_le_len();
    }
    let mut at: usize = pos;
    write_u16(bytes, &mut at, v)?;
    Ok(at)
}

/// Lays a `u32` over the buffer at `pos`.
pub(crate) fn put_u32(bytes: &mut [u8], pos: usize, v: u32) -> (r: Result<usize, Error>)
    requires
        pos + 4 <= old(bytes)@.len(),
    ensures
        laid(old(bytes)@, pos as int, le32(v), r, final(bytes)@),
{
    proof {
        lemma_le_len();
    }
    let mut at: usize = pos;
    write_u32(bytes, &mut at, v)?;
    Ok(at)
}

/// Lays a `u64` over the buffer at `pos`.
pub(crate) fn put_u64(bytes: &mut [u8], pos: usize, v: u64) -> (r: Result<usize, Error>)
    requires
        pos + 8 <= old(bytes)@.len(),
    ensures
        laid(old(bytes)@, pos as int, le64(v), r, final(bytes)@),
{
    proof {
        lemma_le_len();
    }
    let mut at: usize = pos;
    write_u64(bytes, &mut at, v)?;
    Ok(at)
}

/// The two's complement pattern of `v`.
pub fn i8_to_bits(v: i8) -> (r: u8)
    ensures
        r == i8_bits(v),
{
    if v >= 0 {
        v as u8
    } else {
        ((v - i8::MIN) as u8) + 0x80
    }
}

/// Lays an `i8` over the buffer at `pos`.
pub(crate) fn put_i8(bytes: &mut [u8], pos: usize, v: i8) -> (r: Result<usize, Error>)
    requires
        pos + 1 <= old(bytes)@.len(),
    ensures
        laid(old(bytes)@, pos as int, le8(i8_bits(v)), r, final(bytes)@),
{
    put_u8(bytes, pos, i8_to_bits(v))
}

/// The two's complement pattern of `v`.
pub fn i16_to_bits(v: i16) -> (r: u16)
    ensures
        r == i16_bits(v),
{
    if v >= 0 {
        v as u16
    } else {
        ((v - i16::MIN) as u16) + 0x8000
    }
}

/// Lays an `i16` over the buffer at `pos`.
pub(crate) fn put_i16(bytes: &mut [u8], pos: usize, v: i16) -> (r: Result<usize, Error>)
    requires
        pos + 2 <= old(bytes)@.len(),
    ensures
        laid(old(bytes)@, pos as int, le16(i16_bits(v)), r, final(bytes)@),
{
    put_u16(bytes, pos, i16_to_bits(v))
}

/// The two's complement pattern of `v`.
pub fn i32_to_bits(v: i32) -> (r: u32)
    ensures
        r == i32_bits(v),
{
    if v >= 0 {
        v as u32
    } else {
        ((v - i32::MIN) as u32) + 0x8000_0000
    }
}

/// Lays an `i32` over the buffer at `pos`.
pub(crate) fn put_i32(bytes: &mut [u8], pos: usize, v: i32) -> (r: Result<usize, Error>)
    requires
        pos + 4 <= old(bytes)@.len(),
    ensures
        laid(old(bytes)@, pos as int, le32(i32_bits(v)), r, final(bytes)@),
{
    put_u32(bytes, pos, i32_to_bits(v))
}

/// The two's complement pattern of `v`.
pub fn i64_to_bits(v: i64) -> (r: u64)
    ensures
        r == i64_bits(v),
{
    if v >= 0 {
        v as u64
    } else {
        ((v - i64::MIN) as u64) + 0x8000_0000_0000_0000
    }
}

/// Lays an `i64` over the buffer at `pos`.
pub(crate) fn put_i64(bytes: &mut [u8], pos: usize, v: i64) -> (r: Result<usize, Error>)
    requires
        pos + 8 <= old(bytes)@.len(),
    ensures
        laid(old(bytes)@, pos as int, le64(i64_bits(v)), r, final(bytes)@),
{
    put_u64(bytes, pos, i64_to_bits(v))
}

/// Lays a truth value over the buffer at `pos`.
pub(crate) fn put_bool(bytes: &mut [u8], pos: usize, v: bool) -> (r: Result<usize, Error>)
    requires
        pos + 1 <= old(bytes)@.len(),
    ensures
        laid(old(bytes)@, pos as int, le8(bool_bits(v)), r, final(bytes)@),
{
    put_u8(bytes, pos, if v { 1 } else { 0 })
}

/// Lays a run of bytes over the buffer at `pos`.
pub(crate) fn put_bytes(bytes: &mut [u8], pos: usize, data: &[u8]) -> (r: Result<usize, Error>)
    requires
        pos + data@.len() <= old(bytes)@.len(),
    ensures
        laid(old(bytes)@, pos as int, data@, r, final(bytes)@),
{
    let mut at: usize = pos;
    write_bytes(bytes, &mut at, data)?;
    Ok(at)
}

/// Lays a handle's number and four bytes of padding over the buffer at
/// `pos`.
pub(crate) fn put_padded(bytes: &mut [u8], pos: usize, v: u32) -> (r: Result<usize, Error>)
    requires
        pos + 8 <= old(bytes)@.len(),
    ensures
        laid(old(bytes)@, pos as int, padded(v), r, final(bytes)@),
{
    proof {
        lemma_le_len();
    }
    let at = put_u32(bytes, pos, v)?;
    let end = put_u32(bytes, at, 0)?;
    proof {
        lemma_overlay_concat(old(bytes)@, pos as int, le32(v), le32(0));
    }
    Ok(end)
}

/// A buffer of `n` zero bytes.
pub fn zeroed(n: usize) -> (buffer: Vec<u8>)
    ensures
        buffer@.len() == n,
        forall|i: int| 0 <= i < n ==> buffer@[i] == 0,
{
    let mut buffer: Vec<u8> = Vec::new();
    let mut i: usize = 0;
    while i < n
        invariant
            i <= n,
            buffer@.len() == i,
            forall|k: int| 0 <= k < i ==> buffer@[k] == 0,
        decreases n - i,
    {
        buffer.push(0);
        i += 1;
    }
    buffer
}

/// The encodings have their widths.
pub proof fn lemma_le_len()
    ensures
        forall|v: u8| #[trigger] le8(v).len() == 1,
        forall|v: u16| #[trigger] le16(v).len() == 2,
        forall|v: u32| #[trigger] le32(v).len() == 4,
        forall|v: u64| #[trigger] le64(v).len() == 8,
        forall|v: u32| #[trigger] padded(v).len() == 8,
{
    lemma_auto_spec_u16_to_from_le_bytes();
    lemma_auto_spec_u32_to_from_le_bytes();
    lemma_auto_spec_u64_to_from_le_bytes();
}

/// A part of a run that a buffer holds is held too, and the other way round.
pub proof fn lemma_holds_at_concat(bytes: Seq<u8>, pos: int, a: Seq<u8>, b: Seq<u8>)
    ensures
        holds_at(bytes, pos, a + b) <==> holds_at(bytes, pos, a) && holds_at(
            bytes,
            pos + a.len(),
            b,
        ),
{
    let n = a.len() as int;
    let m = b.len() as int;
    if holds_at(bytes, pos, a + b) {
        assert(bytes.subrange(pos, pos + n) =~= (a + b).subrange(0, n));
        assert((a + b).subrange(0, n) =~= a);
        assert(bytes.subrange(pos + n, pos + n + m) =~= (a + b).subrange(n, n + m));
        assert((a + b).subrange(n, n + m) =~= b);
    }
    if holds_at(bytes, pos, a) && holds_at(bytes, pos + a.len(), b) {
        assert(bytes.subrange(pos, pos + n + m) =~= bytes.subrange(pos, pos + n) + bytes.subrange(
            pos + n,
            pos + n + m,
        ));
    }
}

/// What a run holds within itself, a buffer that holds the run holds too.
pub proof fn lemma_holds_at_within(
    bytes: Seq<u8>,
    pos: int,
    outer: Seq<u8>,
    at: int,
    inner: Seq<u8>,
)
    requires
        holds_at(bytes, pos, outer),
        holds_at(outer, at, inner),
    ensures
        holds_at(bytes, pos + at, inner),
{
    assert(bytes.subrange(pos + at, pos + at + inner.len()) =~= bytes.subrange(
        pos,
        pos + outer.len(),
    ).subrange(at, at + inner.len()));
}

/// After a run is laid over a buffer, the buffer holds it and is as long as
/// before.
pub proof fn lemma_overlay_holds(bytes: Seq<u8>, pos: int, data: Seq<u8>)
    requires
        0 <= pos,
        pos + data.len() <= bytes.len(),
    ensures
        overlay(bytes, pos, data).len() == bytes.len(),
        holds_at(overlay(bytes, pos, data), pos, data),
{
    assert(overlay(bytes, pos, data).subrange(pos, pos + data.len()) =~= data);
}

/// Two runs laid down one after the other are their concatenation laid down
/// once.
pub proof fn lemma_overlay_concat(bytes: Seq<u8>, pos: int, a: Seq<u8>, b: Seq<u8>)
    requires
        0 <= pos,
        pos + a.len() + b.len() <= bytes.len(),
    ensures
        overlay(overlay(bytes, pos, a), pos + a.len(), b) == overlay(bytes, pos, a + b),
{
    assert(overlay(overlay(bytes, pos, a), pos + a.len(), b) =~= overlay(bytes, pos, a + b));
}

/// A run laid down in front of another, which was laid down first, is the
/// two in a row laid down once.
pub proof fn lemma_overlay_front(bytes: Seq<u8>, front: Seq<u8>, back: Seq<u8>)
    requires
        front.len() + back.len() <= bytes.len(),
    ensures
        overlay(
            overlay(bytes, front.len() as int, back),
            0,
            front,
        ) == overlay(bytes, 0, front + back),
{
    assert(overlay(overlay(bytes, front.len() as int, back), 0, front) =~= overlay(
        bytes,
        0,
        front + back,
    ));
}

/// A run laid over a buffer of its own length is the run.
pub proof fn lemma_overlay_whole(bytes: Seq<u8>, data: Seq<u8>)
    requires
        bytes.len() == data.len(),
    ensures
        overlay(bytes, 0, data) == data,
{
    assert(overlay(bytes, 0, data) =~= data);
}

/// A byte that the buffer holds is read back.
pub proof fn lemma_parse_u8_at(bytes: Seq<u8>, pos: int, v: u8)
    requires
        holds_at(bytes, pos, le8(v)),
    ensures
        parse_u8(bytes, pos) == Ok::<(u8, int), Error>((v, pos + 1)),
{
    assert(bytes.subrange(pos, pos + 1)[0] == v);
}

/// A `u16` that the buffer holds is read back.
pub proof fn lemma_parse_u16_at(bytes: Seq<u8>, pos: int, v: u16)
    requires
        holds_at(bytes, pos, le16(v)),
    ensures
        le16(v).len() == 2,
        parse_u16(bytes, pos) == Ok::<(u16, int), Error>((v, pos + 2)),
{
    lemma_auto_spec_u16_to_from_le_bytes();
}

/// A `u32` that the buffer holds is read back.
pub proof fn lemma_parse_u32_at(bytes: Seq<u8>, pos: int, v: u32)
    requires
        holds_at(bytes, pos, le32(v)),
    ensures
        le32(v).len() == 4,
        parse_u32(bytes, pos) == Ok::<(u32, int), Error>((v, pos + 4)),
{
    lemma_auto_spec_u32_to_from_le_bytes();
}

/// A `u64` that the buffer holds is read back.
pub proof fn lemma_parse_u64_at(bytes: Seq<u8>, pos: int, v: u64)
    requires
        holds_at(bytes, pos, le64(v)),
    ensures
        le64(v).len() == 8,
        parse_u64(bytes, pos) == Ok::<(u64, int), Error>((v, pos + 8)),
{
    lemma_auto_spec_u64_to_from_le_bytes();
}

/// An `i8` that the buffer holds is read back.
pub proof fn lemma_parse_i8_at(bytes: Seq<u8>, pos: int, v: i8)
    requires
        holds_at(bytes, pos, le8(i8_bits(v))),
    ensures
        parse_i8(bytes, pos) == Ok::<(i8, int), Error>((v, pos + 1)),
{
    lemma_parse_u8_at(bytes, pos, i8_bits(v));
}

/// An `i16` that the buffer holds is read back.
pub proof fn lemma_parse_i16_at(bytes: Seq<u8>, pos: int, v: i16)
    requires
        holds_at(bytes, pos, le16(i16_bits(v))),
    ensures
        parse_i16(bytes, pos) == Ok::<(i16, int), Error>((v, pos + 2)),
{
    lemma_parse_u16_at(bytes, pos, i16_bits(v));
}

/// An `i32` that the buffer holds is read back.
pub proof fn lemma_parse_i32_at(bytes: Seq<u8>, pos: int, v: i32)
    requires
        holds_at(bytes, pos, le32(i32_bits(v))),
    ensures
        parse_i32(bytes, pos) == Ok::<(i32, int), Error>((v, pos + 4)),
{
    lemma_parse_u32_at(bytes, pos, i32_bits(v));
}

/// An `i64` that the buffer holds is read back.
pub proof fn lemma_parse_i64_at(bytes: Seq<u8>, pos: int, v: i64)
    requires
        holds_at(bytes, pos, le64(i64_bits(v))),
    ensures
        parse_i64(bytes, pos) == Ok::<(i64, int), Error>((v, pos + 8)),
{
    lemma_parse_u64_at(bytes, pos, i64_bits(v));
}

/// A truth value that the buffer holds is read back.
pub proof fn lemma_parse_bool_at(bytes: Seq<u8>, pos: int, v: bool)
    requires
        holds_at(bytes, pos, le8(bool_bits(v))),
    ensures
        parse_bool(bytes, pos) == Ok::<(bool, int), Error>((v, pos + 1)),
{
    lemma_parse_u8_at(bytes, pos, bool_bits(v));
}

/// A run of bytes that the buffer holds is read back.
pub proof fn lemma_parse_bytes_at(bytes: Seq<u8>, pos: int, data: Seq<u8>)
    requires
        holds_at(bytes, pos, data),
    ensures
        parse_bytes(bytes, pos, data.len()) == Ok::<(Seq<u8>, int), Error>(
            (data, pos + data.len()),
        ),
{
}

/// Text whose encoding the buffer holds is read back.
pub proof fn lemma_parse_str_at(bytes: Seq<u8>, pos: int, text: Seq<char>)
    requires
        holds_at(bytes, pos, encode_utf8(text)),
    ensures
        parse_str(bytes, pos, encode_utf8(text).len()) == Ok::<(Seq<char>, int), Error>(
            (text, pos + encode_utf8(text).len()),
        ),
{
    encode_utf8_valid_utf8(text);
    encode_utf8_decode_utf8(text);
}

/// Where the bytes from `pos` up to `end` are not zero and the one at `end`
/// is, `end` is the first zero from `pos` on.
pub proof fn lemma_zero_from(bytes: Seq<u8>, pos: int, end: int)
    requires
        0 <= pos <= end < bytes.len(),
        forall|i: int| pos <= i < end ==> bytes[i] != 0,
        bytes[end] == 0,
    ensures
        zero_from(bytes, pos) == end,
    decreases end - pos,
{
    if pos < end {
        lemma_zero_from(bytes, pos + 1, end);
    }
}

/// The first zero from `pos` on is at or after `pos`, within the buffer or
/// at its end, and no byte before it is zero.
pub proof fn lemma_zero_from_bounds(bytes: Seq<u8>, pos: int)
    requires
        0 <= pos <= bytes.len(),
    ensures
        pos <= zero_from(bytes, pos) <= bytes.len(),
        zero_from(bytes, pos) < bytes.len() ==> bytes[zero_from(bytes, pos)] == 0,
        forall|i: int| pos <= i < zero_from(bytes, pos) ==> bytes[i] != 0,
    decreases bytes.len() - pos,
{
    if pos < bytes.len() && bytes[pos] != 0 {
        lemma_zero_from_bounds(bytes, pos + 1);
    }
}

/// Zero-terminated text that the buffer holds is read back, if its encoding
/// has no zero byte.
pub proof fn lemma_parse_cstr_at(bytes: Seq<u8>, pos: int, text: Seq<char>)
    requires
        holds_at(bytes, pos, encode_utf8(text) + seq![0u8]),
        !encode_utf8(text).contains(0u8),
    ensures
        parse_cstr(bytes, pos) == Ok::<(Seq<char>, int), Error>(
            (text, pos + encode_utf8(text).len() + 1),
        ),
{
    let raw = encode_utf8(text);
    let end = pos + raw.len();
    lemma_holds_at_concat(bytes, pos, raw, seq![0u8]);
    assert(bytes.subrange(end, end + 1)[0] == 0u8);
    assert forall|i: int| pos <= i < end implies bytes[i] != 0 by {
        assert(bytes.subrange(pos, end)[i - pos] == raw[i - pos]);
        assert(raw.contains(raw[i - pos]));
    }
    lemma_zero_from(bytes, pos, end);
    encode_utf8_valid_utf8(text);
    encode_utf8_decode_utf8(text);
}

/// A padded handle that the buffer holds is read back.
pub proof fn lemma_parse_padded_at(bytes: Seq<u8>, pos: int, v: u32)
    requires
        holds_at(bytes, pos, padded(v)),
    ensures
        padded(v).len() == 8,
        parse_u32(bytes, pos) == Ok::<(u32, int), Error>((v, pos + 4)),
        parse_u32(bytes, pos + 4) == Ok::<(u32, int), Error>((0u32, pos + 8)),
{
    lemma_le_len();
    lemma_holds_at_concat(bytes, pos, le32(v), le32(0));
    lemma_parse_u32_at(bytes, pos, v);
    lemma_parse_u32_at(bytes, pos + 4, 0);
}

} // verus!
