//! Byte payloads. Frames and stored values carry `bytes::Bytes`; this module
//! names what such a value holds and states what the few calls made on it do.

use bytes::{Buf, Bytes, BytesMut};
use vstd::prelude::*;

verus! {

/// `bytes::Bytes`, a shared buffer of bytes. Nothing inside it is seen
/// here; what it holds has the name below.
#[verifier::external_type_specification]
#[verifier::external_body]
pub struct ExBytes(bytes::Bytes);

/// The bytes that a `Bytes` value holds, in order.
pub uninterp spec fn bytes_view(b: Bytes) -> Seq<u8>;

/// `Bytes::clone`: the clone holds the same bytes.
pub assume_specification[ <bytes::Bytes as Clone>::clone ](b: &Bytes) -> (r: Bytes)
    ensures
        bytes_view(r) == bytes_view(*b),
;

/// `Bytes::copy_from_slice`: the new value holds a copy of the slice.
#[verifier::external_body]
pub(crate) fn bytes_copy_from_slice(data: &[u8]) -> (b: Bytes)
    ensures
        bytes_view(b) == data@,
{
    Bytes::copy_from_slice(data)
}

/// The digit that stands for `n` in lower-case hexadecimal.
pub open spec fn hex_digit(n: u8) -> char {
    if n < 10 {
        (48 + n) as char
    } else {
        (87 + n) as char
    }
}

/// One byte as `{:?}` prints it inside a `Bytes` value: line feed, carriage
/// return, tab and the zero byte by their letter after a backslash, the
/// backslash and the double quote after a backslash, any other printable
/// ASCII byte as it is, and the rest as `\x` and two hexadecimal digits.
pub open spec fn byte_debug_text(b: u8) -> Seq<char> {
    if b == 10 {
        seq!['\\', 'n']
    } else if b == 13 {
        seq!['\\', 'r']
    } else if b == 9 {
        seq!['\\', 't']
    } else if b == 92 || b == 34 {
        seq!['\\', b as char]
    } else if b == 0 {
        seq!['\\', '0']
    } else if 0x20 <= b < 0x7f {
        seq![b as char]
    } else {
        seq!['\\', 'x', hex_digit(b / 16), hex_digit(b % 16)]
    }
}

/// The bytes one after the other, each as `{:?}` prints it.
pub open spec fn bytes_escaped(data: Seq<u8>) -> Seq<char>
    decreases data.len(),
{
    if data.len() == 0 {
        Seq::empty()
    } else {
        bytes_escaped(data.drop_last()) + byte_debug_text(data.last())
    }
}

/// Bytes as `{:?}` prints a `Bytes` value that holds them: `b"`, the bytes
/// with their escapes, and `"`.
pub open spec fn bytes_debug_text(data: Seq<u8>) -> Seq<char> {
    seq!['b', '"'] + bytes_escaped(data) + seq!['"']
}

/// `Debug` of `Bytes`, through `format!`: the bytes held between `b"` and
/// `"`, each with its escape.
#[verifier::external_body]
pub(crate) fn bytes_debug(b: &Bytes) -> (s: String)
    ensures
        s@ == bytes_debug_text(bytes_view(*b)),
{
    format!("{:?}", b)
}

/// `Deref` of `Bytes`: the slice shows the bytes held.
#[verifier::external_body]
pub(crate) fn bytes_as_slice(b: &Bytes) -> (s: &[u8])
    ensures
        s@ == bytes_view(*b),
{
    &b[..]
}

/// `bytes::BytesMut`, a buffer of bytes that grows at the end and is
/// consumed from the start. Nothing inside it is seen here; what it holds
/// has the name below.
#[verifier::external_type_specification]
#[verifier::external_body]
pub struct ExBytesMut(bytes::BytesMut);

/// The bytes that a `BytesMut` buffer holds, in order.
pub uninterp spec fn bytes_mut_view(b: BytesMut) -> Seq<u8>;

/// `BytesMut::with_capacity`: an empty buffer.
#[verifier::external_body]
pub(crate) fn bytes_mut_with_capacity(capacity: usize) -> (b: BytesMut)
    ensures
        bytes_mut_view(b) == Seq::<u8>::empty(),
{
    BytesMut::with_capacity(capacity)
}

/// `Deref` of `BytesMut`: the slice shows the bytes held.
#[verifier::external_body]
pub(crate) fn bytes_mut_as_slice(b: &BytesMut) -> (s: &[u8])
    ensures
        s@ == bytes_mut_view(*b),
{
    &b[..]
}

/// `BytesMut::extend_from_slice`: the slice's bytes are added at the end.
#[verifier::external_body]
pub(crate) fn bytes_mut_extend_from_slice(b: &mut BytesMut, data: &[u8])
    ensures
        bytes_mut_view(*final(b)) == bytes_mut_view(*old(b)) + data@,
{
    b.extend_from_slice(data)
}

/// `Buf::advance` of `BytesMut`: the first `cnt` bytes leave the buffer. It
/// panics where fewer bytes are held.
#[verifier::external_body]
pub(crate) fn bytes_mut_advance(b: &mut BytesMut, cnt: usize)
    requires
        cnt <= bytes_mut_view(*old(b)).len(),
    ensures
        bytes_mut_view(*final(b)) == bytes_mut_view(*old(b)).subrange(
            cnt as int,
            bytes_mut_view(*old(b)).len() as int,
        ),
{
    b.advance(cnt)
}

} // verus!
