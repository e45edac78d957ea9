//! Byte-level building blocks of the datagram format.
//!
//! Every field of a packet is written and read by the `bytes_kman` crate's
//! `TBytes` implementations for the primitive types. This module states, as
//! spec functions over byte sequences, what those implementations produce and
//! accept, and wraps each of them in a function whose contract says so.
//!
//! Readers consume a buffer from its *end*: the byte that was written first
//! must sit last. [`stream`] turns a buffer into the sequence of bytes in the
//! order in which they are consumed.
use vstd::bytes::*;
use vstd::prelude::*;
use vstd::utf8::*;

verus! {

/// The bytes of a receive buffer in the order in which readers consume them,
/// which is from the last element to the first.
pub open spec fn stream(buffer: Seq<u8>) -> Seq<u8> {
    buffer.reverse()
}

/// Width of an encoded length or variant tag.
pub const LEN_WIDTH: usize = 8;

/// Encoding of a length or a variant tag: eight bytes, little endian.
pub open spec fn enc_len(n: nat) -> Seq<u8> {
    spec_u64_to_le_bytes(n as u64)
}

/// Encoding of a boolean: one byte, `1` for `true`.
pub open spec fn enc_bool(b: bool) -> Seq<u8> {
    seq![if b { 1u8 } else { 0u8 }]
}

/// The little-endian encodings of a sequence of identifiers, one after another.
pub open spec fn ids_bytes(ids: Seq<u16>) -> Seq<u8>
    decreases ids.len(),
{
    if ids.len() == 0 {
        Seq::empty()
    } else {
        ids_bytes(ids.drop_last()) + spec_u16_to_le_bytes(ids.last())
    }
}

/// Encoding of a sequence of identifiers: their count, then each identifier.
pub open spec fn enc_ids(ids: Seq<u16>) -> Seq<u8> {
    enc_len(ids.len()) + ids_bytes(ids)
}

/// Encoding of a byte blob: its length, then the bytes.
pub open spec fn enc_blob(bytes: Seq<u8>) -> Seq<u8> {
    enc_len(bytes.len()) + bytes
}

/// Encoding of a string: the length of its UTF-8 form, then that form.
pub open spec fn enc_string(text: Seq<char>) -> Seq<u8> {
    enc_blob(encode_utf8(text))
}

/// The text a reader makes of raw bytes: every byte becomes the character
/// with that code point. Only ASCII text reads back as it was written.
pub open spec fn bytes_as_text(bytes: Seq<u8>) -> Seq<char> {
    Seq::new(bytes.len(), |i: int| bytes[i] as char)
}

/// The identifiers held in `bytes`, two bytes each, little endian.
pub open spec fn bytes_as_ids(bytes: Seq<u8>) -> Seq<u16> {
    Seq::new(bytes.len() / 2, |i: int| spec_u16_from_le_bytes(bytes.subrange(2 * i, 2 * i + 2)))
}

/// Reads a boolean: any nonzero byte is `true`. Fails on an empty stream.
pub open spec fn read_bool(s: Seq<u8>) -> (Option<bool>, Seq<u8>) {
    if s.len() >= 1 {
        (Some(s[0] > 0), s.skip(1))
    } else {
        (None, Seq::empty())
    }
}

/// Reads a 16-bit integer. A stream that is too short is used up.
pub open spec fn read_u16(s: Seq<u8>) -> (Option<u16>, Seq<u8>) {
    if s.len() >= 2 {
        (Some(spec_u16_from_le_bytes(s.take(2))), s.skip(2))
    } else {
        (None, Seq::empty())
    }
}

/// Reads a 128-bit integer. A stream that is too short is used up.
pub open spec fn read_u128(s: Seq<u8>) -> (Option<u128>, Seq<u8>) {
    if s.len() >= 16 {
        (Some(spec_u128_from_le_bytes(s.take(16))), s.skip(16))
    } else {
        (None, Seq::empty())
    }
}

/// Reads a length or variant tag. A stream that is too short is used up.
pub open spec fn read_len(s: Seq<u8>) -> (Option<nat>, Seq<u8>) {
    if s.len() >= 8 {
        (Some(spec_u64_from_le_bytes(s.take(8)) as nat), s.skip(8))
    } else {
        (None, Seq::empty())
    }
}

/// Reads a length-prefixed byte blob. A stream that ends before the
/// announced length is used up.
pub open spec fn read_blob(s: Seq<u8>) -> (Option<Seq<u8>>, Seq<u8>) {
    match read_len(s) {
        (Some(n), rest) => if n <= rest.len() {
            (Some(rest.take(n as int)), rest.skip(n as int))
        } else {
            (None, Seq::empty())
        },
        (None, rest) => (None, rest),
    }
}

/// Reads a length-prefixed string, byte by byte (see [`bytes_as_text`]).
pub open spec fn read_string(s: Seq<u8>) -> (Option<Seq<char>>, Seq<u8>) {
    match read_blob(s) {
        (Some(bytes), rest) => (Some(bytes_as_text(bytes)), rest),
        (None, rest) => (None, rest),
    }
}

/// Reads a counted sequence of identifiers. A stream that ends before the
/// announced count is used up.
pub open spec fn read_ids(s: Seq<u8>) -> (Option<Seq<u16>>, Seq<u8>) {
    match read_len(s) {
        (Some(n), rest) => if 2 * n <= rest.len() {
            (Some(bytes_as_ids(rest.take(2 * n as int))), rest.skip(2 * n as int))
        } else {
            (None, Seq::empty())
        },
        (None, rest) => (None, rest),
    }
}

/// `bytes_kman`'s `to_bytes` of a `bool`: the single byte `1` or `0`.
#[verifier::external_body]
pub(crate) fn bool_to_bytes(value: bool) -> (bytes: Vec<u8>)
    ensures
        bytes@ == enc_bool(value),
{
    bytes_kman::TBytes::to_bytes(&value)
}

/// `bytes_kman`'s `to_bytes` of a `u16`: its two bytes, little endian.
#[verifier::external_body]
pub(crate) fn u16_to_bytes(value: u16) -> (bytes: Vec<u8>)
    ensures
        bytes@ == spec_u16_to_le_bytes(value),
{
    bytes_kman::TBytes::to_bytes(&value)
}

/// `bytes_kman`'s `to_bytes` of a `u128`: its sixteen bytes, little endian.
#[verifier::external_body]
pub(crate) fn u128_to_bytes(value: u128) -> (bytes: Vec<u8>)
    ensures
        bytes@ == spec_u128_to_le_bytes(value),
{
    bytes_kman::TBytes::to_bytes(&value)
}

/// `bytes_kman`'s `to_bytes` of a `usize`: eight bytes, little endian. The
/// outside crate builds only where a `usize` has eight bytes.
#[verifier::external_body]
pub(crate) fn len_to_bytes(value: usize) -> (bytes: Vec<u8>)
    ensures
        bytes@ == enc_len(value as nat),
{
    bytes_kman::TBytes::to_bytes(&value)
}

/// `bytes_kman`'s `to_bytes` of a `String`: the byte length of the text as a
/// `usize`, then the text's UTF-8 bytes.
#[verifier::external_body]
pub(crate) fn string_to_bytes(value: &String) -> (bytes: Vec<u8>)
    ensures
        bytes@ == enc_string(value@),
{
    bytes_kman::TBytes::to_bytes(value)
}

/// `bytes_kman`'s `to_bytes` of a `Vec<u8>`: the length as a `usize`, then
/// the bytes.
#[verifier::external_body]
pub(crate) fn blob_to_bytes(value: &Vec<u8>) -> (bytes: Vec<u8>)
    ensures
        bytes@ == enc_blob(value@),
{
    bytes_kman::TBytes::to_bytes(value)
}

/// `bytes_kman`'s `to_bytes` of a `Vec<u16>`: the count as a `usize`, then
/// each element little endian, first element first.
#[verifier::external_body]
pub(crate) fn ids_to_bytes(value: &Vec<u16>) -> (bytes: Vec<u8>)
    ensures
        bytes@ == enc_ids(value@),
{
    bytes_kman::TBytes::to_bytes(value)
}

/// `bytes_kman`'s `from_bytes` for `bool`: pops one byte off the end of the
/// buffer; nonzero is `true`. `None` only on an empty buffer.
#[verifier::external_body]
pub(crate) fn bool_from_bytes(buffer: &mut Vec<u8>) -> (value: Option<bool>)
    ensures
        value == read_bool(stream(old(buffer)@)).0,
        stream(final(buffer)@) == read_bool(stream(old(buffer)@)).1,
{
    bytes_kman::TBytes::from_bytes(buffer)
}

/// `bytes_kman`'s `from_bytes` for `u16`: pops two bytes off the end of the
/// buffer, the first popped being the low byte. Where a pop finds the buffer
/// empty the result is `None`, and the buffer stays empty.
#[verifier::external_body]
pub(crate) fn u16_from_bytes(buffer: &mut Vec<u8>) -> (value: Option<u16>)
    ensures
        value == read_u16(stream(old(buffer)@)).0,
        stream(final(buffer)@) == read_u16(stream(old(buffer)@)).1,
{
    bytes_kman::TBytes::from_bytes(buffer)
}

/// `bytes_kman`'s `from_bytes` for `u128`: pops sixteen bytes off the end of
/// the buffer, low byte first. Where a pop finds the buffer empty the result
/// is `None`, and the buffer stays empty.
#[verifier::external_body]
pub(crate) fn u128_from_bytes(buffer: &mut Vec<u8>) -> (value: Option<u128>)
    ensures
        value == read_u128(stream(old(buffer)@)).0,
        stream(final(buffer)@) == read_u128(stream(old(buffer)@)).1,
{
    bytes_kman::TBytes::from_bytes(buffer)
}

/// `bytes_kman`'s `from_bytes` for `usize`: pops eight bytes off the end of
/// the buffer, low byte first. Where a pop finds the buffer empty the result
/// is `None`, and the buffer stays empty.
#[verifier::external_body]
pub(crate) fn len_from_bytes(buffer: &mut Vec<u8>) -> (value: Option<usize>)
    ensures
        match read_len(stream(old(buffer)@)).0 {
            Some(n) => value == Some(n as usize) && n == n as usize,
            None => value is None,
        },
        stream(final(buffer)@) == read_len(stream(old(buffer)@)).1,
{
    bytes_kman::TBytes::from_bytes(buffer)
}

/// `bytes_kman`'s `from_bytes` for `String`: reads a `usize` length, reserves
/// that many bytes, then pops that many bytes, each becoming one character.
/// The reservation fails on a length beyond what can be allocated, so the
/// announced length must not exceed what the buffer still holds.
#[verifier::external_body]
pub(crate) fn string_from_bytes(buffer: &mut Vec<u8>) -> (value: Option<String>)
    requires
        read_len(stream(old(buffer)@)).0 matches Some(n) ==> n <= old(buffer)@.len() - 8,
    ensures
        match read_string(stream(old(buffer)@)).0 {
            Some(text) => value matches Some(v) && v@ == text,
            None => value is None,
        },
        stream(final(buffer)@) == read_string(stream(old(buffer)@)).1,
{
    bytes_kman::TBytes::from_bytes(buffer)
}

/// `bytes_kman`'s `from_bytes` for `Vec<u8>`: reads a `usize` length,
/// reserves that many bytes, then pops that many bytes. The reservation fails
/// on a length beyond what can be allocated, so the announced length must not
/// exceed what the buffer still holds.
#[verifier::external_body]
pub(crate) fn blob_from_bytes(buffer: &mut Vec<u8>) -> (value: Option<Vec<u8>>)
    requires
        read_len(stream(old(buffer)@)).0 matches Some(n) ==> n <= old(buffer)@.len() - 8,
    ensures
        match read_blob(stream(old(buffer)@)).0 {
            Some(bytes) => value matches Some(v) && v@ == bytes,
            None => value is None,
        },
        stream(final(buffer)@) == read_blob(stream(old(buffer)@)).1,
{
    bytes_kman::TBytes::from_bytes(buffer)
}

/// `bytes_kman`'s `from_bytes` for `Vec<u16>`: reads a `usize` count,
/// reserves room for that many elements, then reads that many `u16`s. The
/// reservation fails on a count beyond what can be allocated, so the
/// announced elements must not exceed what the buffer still holds.
#[verifier::external_body]
pub(crate) fn ids_from_bytes(buffer: &mut Vec<u8>) -> (value: Option<Vec<u16>>)
    requires
        read_len(stream(old(buffer)@)).0 matches Some(n) ==> 2 * n <= old(buffer)@.len() - 8,
    ensures
        match read_ids(stream(old(buffer)@)).0 {
            Some(ids) => value matches Some(v) && v@ == ids,
            None => value is None,
        },
        stream(final(buffer)@) == read_ids(stream(old(buffer)@)).1,
{
    bytes_kman::TBytes::from_bytes(buffer)
}

/// What a reader returned, seen through the value's view.
pub open spec fn view_of<T: View>(value: Option<T>) -> Option<T::V> {
    match value {
        Some(v) => Some(v@),
        None => None,
    }
}

/// The length announced at the head of the stream, read without consuming
/// anything.
pub fn peek_len(buffer: &Vec<u8>) -> (announced: Option<usize>)
    ensures
        match read_len(stream(buffer@)).0 {
            Some(n) => announced == Some(n as usize) && n == n as usize,
            None => announced is None,
        },
{
    let total = buffer.len();
    if total < LEN_WIDTH {
        return None;
    }
    let mut probe: Vec<u8> = Vec::new();
    let mut i: usize = total - LEN_WIDTH;
    while i < total
        invariant
            total == buffer@.len(),
            total >= 8,
            total - 8 <= i <= total,
            probe@ == buffer@.subrange(total - 8, i as int),
        decreases total - i,
    {
        probe.push(buffer[i]);
        i += 1;
    }
    assert(stream(probe@).take(8) == stream(buffer@).take(8));
    len_from_bytes(&mut probe)
}

/// Reads a length-prefixed string off the end of `buffer`. A length that
/// announces more than the buffer holds uses the buffer up and yields `None`.
pub fn take_string(buffer: &mut Vec<u8>) -> (value: Option<String>)
    ensures
        view_of(value) == read_string(stream(old(buffer)@)).0,
        stream(final(buffer)@) == read_string(stream(old(buffer)@)).1,
{
    if let Some(n) = peek_len(buffer) {
        if n > buffer.len() - LEN_WIDTH {
            buffer.clear();
            return None;
        }
    }
    string_from_bytes(buffer)
}

/// Reads a length-prefixed byte blob off the end of `buffer`. A length that
/// announces more than the buffer holds uses the buffer up and yields `None`.
pub fn take_blob(buffer: &mut Vec<u8>) -> (value: Option<Vec<u8>>)
    ensures
        view_of(value) == read_blob(stream(old(buffer)@)).0,
        stream(final(buffer)@) == read_blob(stream(old(buffer)@)).1,
{
    if let Some(n) = peek_len(buffer) {
        if n > buffer.len() - LEN_WIDTH {
            buffer.clear();
            return None;
        }
    }
    blob_from_bytes(buffer)
}

/// Reads a counted sequence of identifiers off the end of `buffer`. A count
/// that announces more than the buffer holds uses the buffer up and yields
/// `None`.
pub fn take_ids(buffer: &mut Vec<u8>) -> (value: Option<Vec<u16>>)
    ensures
        view_of(value) == read_ids(stream(old(buffer)@)).0,
        stream(final(buffer)@) == read_ids(stream(old(buffer)@)).1,
{
    if let Some(n) = peek_len(buffer) {
        if n > (buffer.len() - LEN_WIDTH) / 2 {
            buffer.clear();
            return None;
        }
    }
    ids_from_bytes(buffer)
}

} // verus!
