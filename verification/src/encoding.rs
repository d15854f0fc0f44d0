//! Recognizing UTF-8: whether a byte string is the encoding of a text.

use vstd::prelude::*;
use vstd::utf8::{
    is_continuation_byte, length_of_first_scalar, pop_first_scalar, valid_first_scalar, valid_utf8,
};

verus! {

/// Whether a byte continues the encoding of a character: `10xxxxxx`.
fn is_continuation(byte: u8) -> (continues: bool)
    ensures
        continues == is_continuation_byte(byte),
{
    0x80 <= byte && byte <= 0xbf
}

/// The number of bytes of the character that is encoded at the start of
/// `bytes[at..]`, or zero where no character is well encoded there: the
/// leading byte must announce as many continuation bytes as follow, and the
/// character must need that many bytes and be no surrogate.
fn first_scalar_len(bytes: &[u8], at: usize) -> (len: usize)
    requires
        at < bytes.len(),
    ensures
        len > 0 <==> valid_first_scalar(bytes@.skip(at as int)),
        len > 0 ==> len == length_of_first_scalar(bytes@.skip(at as int)) && at + len
            <= bytes.len(),
{
    let ghost rest = bytes@.skip(at as int);
    let left = bytes.len() - at;
    let b0 = bytes[at];
    assert(rest[0] == b0);
    if b0 <= 0x7f {
        assert((b0 & 0x7f) as u32 <= 0x7f) by (bit_vector);
        1
    } else if 0xc0 <= b0 && b0 <= 0xdf {
        if left < 2 {
            return 0;
        }
        let b1 = bytes[at + 1];
        assert(rest[1] == b1);
        if !is_continuation(b1) {
            return 0;
        }
        let code: u32 = (((b0 & 0x1f) as u32) << 6) | ((b1 & 0x3f) as u32);
        assert(((((b0 & 0x1f) as u32) << 6) | ((b1 & 0x3f) as u32)) < 0x800) by (bit_vector);
        if code >= 0x80 {
            2
        } else {
            0
        }
    } else if 0xe0 <= b0 && b0 <= 0xef {
        if left < 3 {
            return 0;
        }
        let b1 = bytes[at + 1];
        let b2 = bytes[at + 2];
        assert(rest[1] == b1 && rest[2] == b2);
        if !is_continuation(b1) || !is_continuation(b2) {
            return 0;
        }
        let code: u32 = (((b0 & 0x0f) as u32) << 12) | (((b1 & 0x3f) as u32) << 6) | ((b2
            & 0x3f) as u32);
        if code >= 0x800 && !(0xd800 <= code && code <= 0xdfff) {
            3
        } else {
            0
        }
    } else if 0xf0 <= b0 && b0 <= 0xf7 {
        if left < 4 {
            return 0;
        }
        let b1 = bytes[at + 1];
        let b2 = bytes[at + 2];
        let b3 = bytes[at + 3];
        assert(rest[1] == b1 && rest[2] == b2 && rest[3] == b3);
        if !is_continuation(b1) || !is_continuation(b2) || !is_continuation(b3) {
            return 0;
        }
        let code: u32 = (((b0 & 0x07) as u32) << 18) | (((b1 & 0x3f) as u32) << 12) | (((b2
            & 0x3f) as u32) << 6) | ((b3 & 0x3f) as u32);
        if 0x10000 <= code && code <= 0x10ffff {
            4
        } else {
            0
        }
    } else {
        0
    }
}

/// Whether the bytes are well-formed UTF-8.
pub fn is_utf8(bytes: &[u8]) -> (valid: bool)
    ensures
        valid == valid_utf8(bytes@),
{
    let mut at: usize = 0;
    assert(bytes@.skip(0) =~= bytes@);
    while at < bytes.len()
        invariant
            at <= bytes.len(),
            valid_utf8(bytes@) == valid_utf8(bytes@.skip(at as int)),
        decreases bytes.len() - at,
    {
        let len = first_scalar_len(bytes, at);
        if len == 0 {
            return false;
        }
        assert(pop_first_scalar(bytes@.skip(at as int)) =~= bytes@.skip(at + len));
        at += len;
    }
    true
}

} // verus!
