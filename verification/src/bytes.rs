//! Little-endian byte order: how multi-byte values lie in memory and in the
//! instruction stream.

use byteorder::ByteOrder;
use byteorder::LittleEndian;
use vstd::prelude::*;

verus! {

/// The byte of `value` at position `index`, position 0 being the least
/// significant one.
pub open spec fn byte_of(value: u32, index: int) -> u8 {
    if index == 0 {
        (value & 0xff) as u8
    } else if index == 1 {
        ((value >> 8) & 0xff) as u8
    } else if index == 2 {
        ((value >> 16) & 0xff) as u8
    } else {
        ((value >> 24) & 0xff) as u8
    }
}

/// The word whose bytes are `b0` (least significant) to `b3`.
pub open spec fn word_of(b0: u8, b1: u8, b2: u8, b3: u8) -> u32 {
    (b0 as u32) | ((b1 as u32) << 8) | ((b2 as u32) << 16) | ((b3 as u32) << 24)
}

/// The byte at `index` of a sequence, or zero past its end.
pub open spec fn byte_or_zero(bytes: Seq<u8>, index: int) -> u8 {
    if 0 <= index < bytes.len() {
        bytes[index]
    } else {
        0
    }
}

/// The value that up to four bytes stand for in little-endian order,
/// extended with zeros to a word.
pub open spec fn le_value(bytes: Seq<u8>) -> u32 {
    word_of(
        byte_or_zero(bytes, 0),
        byte_or_zero(bytes, 1),
        byte_or_zero(bytes, 2),
        byte_or_zero(bytes, 3),
    )
}

/// The `size` low-order bytes of `value` in little-endian order.
pub open spec fn le_bytes(value: u32, size: nat) -> Seq<u8> {
    Seq::new(size, |k: int| byte_of(value, k))
}

/// The bytes of a sequence of words, each word in little-endian order.
pub open spec fn words_le(words: Seq<u32>) -> Seq<u8> {
    Seq::new(4 * words.len(), |j: int| byte_of(words[j / 4], j % 4))
}

/// A word cut down to its `size` low-order bytes.
pub open spec fn low_bytes(value: u32, size: nat) -> u32 {
    if size == 0 {
        0
    } else if size == 1 {
        value & 0xff
    } else if size == 2 {
        value & 0xffff
    } else if size == 3 {
        value & 0xff_ffff
    } else {
        value
    }
}

/// The four bytes of a word give the word back.
pub proof fn lemma_word_of_bytes(value: u32)
    ensures
        word_of(byte_of(value, 0), byte_of(value, 1), byte_of(value, 2), byte_of(value, 3))
            == value,
{
    assert(((value & 0xff) as u8 as u32) | ((((value >> 8) & 0xff) as u8 as u32) << 8) | ((((value
        >> 16) & 0xff) as u8 as u32) << 16) | ((((value >> 24) & 0xff) as u8 as u32) << 24)
        == value) by (bit_vector);
}

/// Each byte of a word built from four bytes is the byte it was built from.
pub proof fn lemma_byte_of_word_of(b0: u8, b1: u8, b2: u8, b3: u8)
    ensures
        byte_of(word_of(b0, b1, b2, b3), 0) == b0,
        byte_of(word_of(b0, b1, b2, b3), 1) == b1,
        byte_of(word_of(b0, b1, b2, b3), 2) == b2,
        byte_of(word_of(b0, b1, b2, b3), 3) == b3,
{
    let w = (b0 as u32) | ((b1 as u32) << 8) | ((b2 as u32) << 16) | ((b3 as u32) << 24);
    assert((w & 0xff) as u8 == b0 && ((w >> 8) & 0xff) as u8 == b1 && ((w >> 16) & 0xff) as u8
        == b2 && ((w >> 24) & 0xff) as u8 == b3) by (bit_vector)
        requires
            w == (b0 as u32) | ((b1 as u32) << 8) | ((b2 as u32) << 16) | ((b3 as u32) << 24),
    ;
}

/// Writing the `size` low-order bytes of a word and reading them back gives
/// the word cut down to that width.
pub proof fn lemma_le_value_of_le_bytes(value: u32, size: nat)
    requires
        size <= 4,
    ensures
        le_value(le_bytes(value, size)) == low_bytes(value, size),
{
    let b0 = (value & 0xff) as u8;
    let b1 = ((value >> 8) & 0xff) as u8;
    let b2 = ((value >> 16) & 0xff) as u8;
    let b3 = ((value >> 24) & 0xff) as u8;
    let z = 0u8;
    assert((z as u32) | ((z as u32) << 8) | ((z as u32) << 16) | ((z as u32) << 24) == 0) by (bit_vector)
        requires
            z == 0,
    ;
    assert((b0 as u32) | ((z as u32) << 8) | ((z as u32) << 16) | ((z as u32) << 24) == value
        & 0xff) by (bit_vector)
        requires
            z == 0,
            b0 == (value & 0xff) as u8,
    ;
    assert((b0 as u32) | ((b1 as u32) << 8) | ((z as u32) << 16) | ((z as u32) << 24) == value
        & 0xffff) by (bit_vector)
        requires
            z == 0,
            b0 == (value & 0xff) as u8,
            b1 == ((value >> 8) & 0xff) as u8,
    ;
    assert((b0 as u32) | ((b1 as u32) << 8) | ((b2 as u32) << 16) | ((z as u32) << 24) == value
        & 0xff_ffff) by (bit_vector)
        requires
            z == 0,
            b0 == (value & 0xff) as u8,
            b1 == ((value >> 8) & 0xff) as u8,
            b2 == ((value >> 16) & 0xff) as u8,
    ;
    lemma_word_of_bytes(value);
}

/// Computes the byte of `value` at position `index`.
pub fn nth_byte(value: u32, index: u32) -> (byte: u8)
    requires
        index < 4,
    ensures
        byte == byte_of(value, index as int),
{
    if index == 0 {
        (value & 0xff) as u8
    } else if index == 1 {
        ((value >> 8) & 0xff) as u8
    } else if index == 2 {
        ((value >> 16) & 0xff) as u8
    } else {
        ((value >> 24) & 0xff) as u8
    }
}

/// Computes the little-endian value of up to four bytes.
pub fn value_of(bytes: &[u8]) -> (value: u32)
    requires
        bytes@.len() <= 4,
    ensures
        value == le_value(bytes@),
{
    let n = bytes.len();
    let b0: u8 = if n > 0 { bytes[0] } else { 0 };
    let b1: u8 = if n > 1 { bytes[1] } else { 0 };
    let b2: u8 = if n > 2 { bytes[2] } else { 0 };
    let b3: u8 = if n > 3 { bytes[3] } else { 0 };
    (b0 as u32) | ((b1 as u32) << 8) | ((b2 as u32) << 16) | ((b3 as u32) << 24)
}

/// Reads a word from the first four bytes of `buf` with
/// `byteorder::LittleEndian::read_u32`, which builds it with
/// `u32::from_le_bytes`: the first byte is the least significant. The call
/// panics on fewer than four bytes, which the precondition rules out.
#[verifier::external_body]
pub(crate) fn read_u32_le(buf: &[u8]) -> (value: u32)
    requires
        buf@.len() >= 4,
    ensures
        value == word_of(buf@[0], buf@[1], buf@[2], buf@[3]),
{
    LittleEndian::read_u32(buf)
}

/// Writes every word of `src` into `dst` with
/// `byteorder::LittleEndian::write_u32_into`, which copies `to_le_bytes` of
/// each word into the next four bytes. The call panics unless `dst` is
/// exactly four times as long as `src`, which the precondition demands.
#[verifier::external_body]
pub(crate) fn write_u32_into_le(src: &[u32], dst: &mut Vec<u8>)
    requires
        old(dst)@.len() == 4 * src@.len(),
    ensures
        final(dst)@ == words_le(src@),
{
    LittleEndian::write_u32_into(src, dst.as_mut_slice())
}

} // verus!
