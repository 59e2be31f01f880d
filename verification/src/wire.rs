//! Bounded reads from a byte buffer: single bytes, big-endian integers,
//! identifiers and runs of bytes. A read that the buffer cannot serve fails
//! as a read from a stream does at its end.

use crate::id::Id;
use byteorder::{BigEndian, ReadBytesExt};
use vstd::prelude::*;
use vstd::slice::{slice_subrange, slice_to_vec};
use vstd::string::StringSliceAdditionalSpecFns;
use vstd::utf8::valid_utf8;

verus! {

/// The unsigned integer that the four bytes of `data` from `pos` on spell,
/// most significant byte first.
pub open spec fn be_u32(data: Seq<u8>, pos: int) -> int
    recommends
        0 <= pos,
        pos + 4 <= data.len(),
{
    data[pos] * 0x100_0000 + data[pos + 1] * 0x1_0000 + data[pos + 2] * 0x100 + data[pos + 3]
}

/// What is left to read of `data` once `pos` bytes are behind: nothing, where
/// `pos` lies beyond the end.
pub open spec fn rest(data: Seq<u8>, pos: int) -> Seq<u8> {
    if 0 <= pos <= data.len() {
        data.subrange(pos, data.len() as int)
    } else {
        Seq::empty()
    }
}

/// Whether `len` bytes can be read of `data` at `pos`.
pub open spec fn readable(data: Seq<u8>, pos: int, len: int) -> bool {
    0 <= len <= rest(data, pos).len()
}

/// The `len` bytes of `data` that a read at `pos` returns, where it can be
/// served.
pub open spec fn run(data: Seq<u8>, pos: int, len: int) -> Seq<u8>
    recommends
        readable(data, pos, len),
{
    rest(data, pos).subrange(0, len)
}

/// `byteorder::ReadBytesExt::read_u32::<BigEndian>` on a byte slice as the
/// reader. With four bytes or more in the slice it is claimed to return the
/// integer that the first four spell, most significant byte first; with
/// fewer, to fail.
#[verifier::external_body]
fn read_u32_be(bytes: &[u8]) -> (read: Result<u32, std::io::Error>)
    ensures
        match read {
            Ok(value) => bytes@.len() >= 4 && value == be_u32(bytes@, 0),
            Err(_) => bytes@.len() < 4,
        },
{
    let mut reader = bytes;
    reader.read_u32::<BigEndian>()
}

/// `byteorder::ReadBytesExt::read_u8` on a byte slice as the reader. It is
/// claimed to return the first byte of the slice, and to fail on an empty
/// one.
#[verifier::external_body]
fn read_u8(bytes: &[u8]) -> (read: Result<u8, std::io::Error>)
    ensures
        match read {
            Ok(value) => bytes@.len() >= 1 && value == bytes@[0],
            Err(_) => bytes@.len() < 1,
        },
{
    let mut reader = bytes;
    reader.read_u8()
}

/// `std::io::Error::from` on `std::io::ErrorKind::UnexpectedEof`: the error
/// of a read that met the end of its input. Nothing is claimed of it.
#[verifier::external_body]
pub(crate) fn unexpected_eof() -> std::io::Error {
    std::io::Error::from(std::io::ErrorKind::UnexpectedEof)
}

/// `core::str::from_utf8`. It is claimed to succeed on the bytes that are
/// well-formed UTF-8 and on no others, and to return the text that consists
/// of these bytes.
#[verifier::external_body]
pub(crate) fn from_utf8(bytes: &[u8]) -> (text: Result<&str, core::str::Utf8Error>)
    ensures
        match text {
            Ok(name) => valid_utf8(bytes@) && name.spec_bytes() == bytes@,
            Err(_) => !valid_utf8(bytes@),
        },
{
    core::str::from_utf8(bytes)
}

/// The part of `data` that is left to read at `pos`.
pub fn remaining(data: &[u8], pos: usize) -> (tail: &[u8])
    ensures
        tail@ == rest(data@, pos as int),
{
    if pos <= data.len() {
        slice_subrange(data, pos, data.len())
    } else {
        slice_subrange(data, 0, 0)
    }
}

/// Reads the byte of `data` at `pos`.
pub fn read_u8_at(data: &[u8], pos: usize) -> (read: Result<u8, std::io::Error>)
    ensures
        match read {
            Ok(value) => readable(data@, pos as int, 1) && value == data@[pos as int],
            Err(_) => !readable(data@, pos as int, 1),
        },
{
    read_u8(remaining(data, pos))
}

/// Reads the big-endian integer in the four bytes of `data` at `pos`.
pub fn read_u32_at(data: &[u8], pos: usize) -> (read: Result<u32, std::io::Error>)
    ensures
        match read {
            Ok(value) => readable(data@, pos as int, 4) && value == be_u32(data@, pos as int),
            Err(_) => !readable(data@, pos as int, 4),
        },
{
    read_u32_be(remaining(data, pos))
}

/// Borrows the `len` bytes of `data` at `pos`.
pub fn read_slice_at(data: &[u8], pos: usize, len: usize) -> (read: Result<&[u8], std::io::Error>)
    ensures
        match read {
            Ok(bytes) => readable(data@, pos as int, len as int) && bytes@ == run(
                data@,
                pos as int,
                len as int,
            ),
            Err(_) => !readable(data@, pos as int, len as int),
        },
{
    let tail = remaining(data, pos);
    if len <= tail.len() {
        Ok(slice_subrange(tail, 0, len))
    } else {
        Err(unexpected_eof())
    }
}

/// Reads the `len` bytes of `data` at `pos` into a buffer of their own.
pub fn read_bytes_at(data: &[u8], pos: usize, len: usize) -> (read: Result<
    Vec<u8>,
    std::io::Error,
>)
    ensures
        match read {
            Ok(bytes) => readable(data@, pos as int, len as int) && bytes@ == run(
                data@,
                pos as int,
                len as int,
            ),
            Err(_) => !readable(data@, pos as int, len as int),
        },
{
    match read_slice_at(data, pos, len) {
        Ok(bytes) => Ok(slice_to_vec(bytes)),
        Err(error) => Err(error),
    }
}

/// Reads the `len` bytes of `data` at `position`, as a stream that holds
/// `data` does: first to `position`, which may lie beyond the end, then
/// exactly `len` bytes.
pub fn read_span(data: &[u8], position: u64, len: u64) -> (read: Result<Vec<u8>, std::io::Error>)
    ensures
        match read {
            Ok(bytes) => readable(data@, position as int, len as int) && bytes@ == run(
                data@,
                position as int,
                len as int,
            ),
            Err(_) => !readable(data@, position as int, len as int),
        },
{
    let total = data.len() as u64;
    if len > total {
        return Err(unexpected_eof());
    }
    let pos = if position <= total {
        position as usize
    } else {
        data.len()
    };
    assert(rest(data@, pos as int) =~= rest(data@, position as int));
    read_bytes_at(data, pos, len as usize)
}

/// Reads the identifier in the four bytes of `data` at `pos`.
pub fn read_id_at(data: &[u8], pos: usize) -> (read: Result<Id, std::io::Error>)
    ensures
        match read {
            Ok(id) => readable(data@, pos as int, 4) && id == Id::at(data@, pos as int),
            Err(_) => !readable(data@, pos as int, 4),
        },
{
    let tail = remaining(data, pos);
    if 4 <= tail.len() {
        let id = Id([tail[0], tail[1], tail[2], tail[3]]);
        assert(id.0 =~= Id::at(data@, pos as int).0);
        Ok(id)
    } else {
        Err(unexpected_eof())
    }
}

/// The four bytes that spell `value`, most significant byte first.
pub open spec fn be_bytes(value: int) -> Seq<u8>
    recommends
        0 <= value <= u32::MAX,
{
    seq![
        (value / 0x100_0000) as u8,
        (value / 0x1_0000 % 0x100) as u8,
        (value / 0x100 % 0x100) as u8,
        (value % 0x100) as u8,
    ]
}

/// Four bytes spell an integer of 32 bits, and they are the bytes that
/// spell it.
pub proof fn lemma_be_u32_of_bytes(data: Seq<u8>, pos: int)
    requires
        0 <= pos,
        pos + 4 <= data.len(),
    ensures
        0 <= be_u32(data, pos) <= u32::MAX,
        be_bytes(be_u32(data, pos)) == data.subrange(pos, pos + 4),
{
    assert(be_bytes(be_u32(data, pos)) =~= data.subrange(pos, pos + 4));
}

/// The bytes that spell an integer of 32 bits spell that integer.
pub proof fn lemma_be_bytes_of_u32(value: int)
    requires
        0 <= value <= u32::MAX,
    ensures
        be_bytes(value).len() == 4,
        be_u32(be_bytes(value), 0) == value,
{
}

/// Two reads in a row are one read of both lengths.
pub proof fn lemma_run_split(data: Seq<u8>, pos: int, first: int, second: int)
    requires
        0 <= pos,
        0 <= first,
        0 <= second,
    ensures
        readable(data, pos, first + second) <==> readable(data, pos, first) && readable(
            data,
            pos + first,
            second,
        ),
        readable(data, pos, first + second) ==> run(data, pos, first + second) == run(
            data,
            pos,
            first,
        ) + run(data, pos + first, second),
{
    if readable(data, pos, first + second) {
        assert(run(data, pos, first + second) =~= run(data, pos, first) + run(
            data,
            pos + first,
            second,
        ));
    }
}

} // verus!
