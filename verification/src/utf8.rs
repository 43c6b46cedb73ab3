//! UTF-8 text as bytes.
//!
//! Strings live in arena memory as bytes. The functions here decide whether
//! bytes are valid UTF-8 and walk them scalar by scalar.

use vstd::prelude::*;
use vstd::utf8::*;

verus! {

/// The bytes from `at` on.
pub open spec fn rest(bytes: Seq<u8>, at: int) -> Seq<u8> {
    bytes.subrange(at, bytes.len() as int)
}

/// Decodes the scalar that starts at byte offset `at`: its value and its width
/// in bytes, or `None` when no valid scalar starts there.
pub fn decode_scalar(bytes: &[u8], at: usize) -> (result: Option<(u32, usize)>)
    requires
        at <= bytes@.len(),
    ensures
        result is Some <==> valid_first_scalar(rest(bytes@, at as int)),
        result matches Some(scalar) ==> {
            &&& scalar.0 == decode_first_scalar(rest(bytes@, at as int))
            &&& scalar.1 == length_of_first_scalar(rest(bytes@, at as int))
            &&& 1 <= scalar.1 <= 4
            &&& at + scalar.1 <= bytes@.len()
            &&& is_scalar(scalar.0)
        },
{
    let ghost tail = rest(bytes@, at as int);
    let available: usize = bytes.len() - at;
    if available == 0 {
        return None;
    }
    let b0: u8 = bytes[at];
    if b0 <= 0x7f {
        let scalar: u32 = (b0 & 0x7f) as u32;
        assert((b0 & 0x7f) as u32 <= 0x7f) by (bit_vector);
        return Some((scalar, 1));
    }
    if b0 < 0xc0 || b0 > 0xf7 {
        return None;
    }
    if available < 2 {
        return None;
    }
    let b1: u8 = bytes[at + 1];
    if b1 < 0x80 || b1 > 0xbf {
        return None;
    }
    if b0 <= 0xdf {
        let scalar: u32 = (((b0 & 0x1f) as u32) << 6) | ((b1 & 0x3f) as u32);
        assert((((b0 & 0x1f) as u32) << 6) | ((b1 & 0x3f) as u32) <= 0x7ff) by (bit_vector);
        if scalar < 0x80 {
            return None;
        }
        return Some((scalar, 2));
    }
    if available < 3 {
        return None;
    }
    let b2: u8 = bytes[at + 2];
    if b2 < 0x80 || b2 > 0xbf {
        return None;
    }
    if b0 <= 0xef {
        let scalar: u32 = (((b0 & 0x0f) as u32) << 12) | (((b1 & 0x3f) as u32) << 6) | ((b2
            & 0x3f) as u32);
        assert((((b0 & 0x0f) as u32) << 12) | (((b1 & 0x3f) as u32) << 6) | ((b2 & 0x3f) as u32)
            <= 0xffff) by (bit_vector);
        if scalar < 0x800 || (0xd800 <= scalar && scalar <= 0xdfff) {
            return None;
        }
        return Some((scalar, 3));
    }
    if available < 4 {
        return None;
    }
    let b3: u8 = bytes[at + 3];
    if b3 < 0x80 || b3 > 0xbf {
        return None;
    }
    let scalar: u32 = (((b0 & 0x07) as u32) << 18) | (((b1 & 0x3f) as u32) << 12) | (((b2
        & 0x3f) as u32) << 6) | ((b3 & 0x3f) as u32);
    if scalar < 0x10000 || scalar > 0x10ffff {
        return None;
    }
    Some((scalar, 4))
}

/// Whether `bytes` are valid UTF-8.
pub fn is_utf8(bytes: &[u8]) -> (valid: bool)
    ensures
        valid == valid_utf8(bytes@),
{
    let mut at: usize = 0;
    assert(bytes@.subrange(0, 0) =~= Seq::<u8>::empty());
    while at < bytes.len()
        invariant
            at <= bytes@.len(),
            partial_valid_utf8(bytes@, at as int),
        decreases bytes@.len() - at,
    {
        match decode_scalar(bytes, at) {
            None => {
                proof {
                    partial_valid_partial_invalid_utf8(bytes@, at as int);
                }
                return false;
            },
            Some((_, width)) => {
                proof {
                    partial_valid_utf8_extend(bytes@, at as int);
                }
                at = at + width;
            },
        }
    }
    assert(bytes@.subrange(0, bytes@.len() as int) =~= bytes@);
    true
}

/// A prefix that ends where a scalar ends, one scalar longer: what it decodes
/// to grows by that scalar.
pub proof fn lemma_step(bytes: Seq<u8>, at: int)
    requires
        valid_utf8(bytes),
        0 <= at < bytes.len(),
        is_char_boundary(bytes, at),
    ensures
        valid_first_scalar(rest(bytes, at)),
        ({
            let next = at + length_of_first_scalar(rest(bytes, at));
            &&& at < next <= bytes.len()
            &&& is_char_boundary(bytes, next)
            &&& valid_utf8(bytes.subrange(0, at))
            &&& valid_utf8(bytes.subrange(0, next))
            &&& valid_utf8(rest(bytes, at))
            &&& valid_utf8(rest(bytes, next))
            &&& decode_utf8(bytes.subrange(0, next)) == decode_utf8(bytes.subrange(0, at)).push(
                decode_first_scalar(rest(bytes, at)) as char,
            )
            &&& decode_utf8(rest(bytes, at)) == seq![decode_first_scalar(rest(bytes, at)) as char]
                + decode_utf8(rest(bytes, next))
        }),
{
    valid_utf8_split(bytes, at);
    let tail = rest(bytes, at);
    assert(valid_utf8(tail));
    assert(valid_first_scalar(tail));
    let width = length_of_first_scalar(tail);
    let next = at + width;
    assert(pop_first_scalar(tail) =~= rest(bytes, next));
    lemma_boundary_shift(bytes, at, width);
    is_char_boundary_start_end_of_seq(pop_first_scalar(tail));
    assert(is_char_boundary(tail, width));
    valid_utf8_split(bytes, next);
    let head = bytes.subrange(0, next);
    assert(head.subrange(0, at) =~= bytes.subrange(0, at));
    assert(head.subrange(at, next) =~= tail.subrange(0, width));
    lemma_boundary_of_prefix(bytes, next, at);
    decode_utf8_split(head, at);
    lemma_single(tail);
    assert(decode_utf8(head) =~= decode_utf8(bytes.subrange(0, at)).push(
        decode_first_scalar(tail) as char,
    ));
}

/// The bytes of one scalar decode to that scalar.
proof fn lemma_single(bytes: Seq<u8>)
    requires
        valid_utf8(bytes),
        bytes.len() > 0,
    ensures
        valid_utf8(take_first_scalar(bytes)),
        decode_utf8(take_first_scalar(bytes)) == seq![decode_first_scalar(bytes) as char],
{
    reveal_with_fuel(valid_utf8, 2);
    reveal_with_fuel(decode_utf8, 2);
    let one = take_first_scalar(bytes);
    assert(valid_first_scalar(one));
    assert(pop_first_scalar(one) =~= Seq::<u8>::empty());
    assert(valid_utf8(one));
    assert(decode_utf8(one) =~= seq![decode_first_scalar(bytes) as char]);
}

/// A boundary of what follows a boundary is a boundary of the whole.
pub proof fn lemma_boundary_shift(bytes: Seq<u8>, at: int, offset: int)
    requires
        valid_utf8(bytes),
        is_char_boundary(bytes, at),
        0 <= at <= bytes.len(),
        0 <= offset <= bytes.len() - at,
        valid_utf8(rest(bytes, at)),
    ensures
        is_char_boundary(rest(bytes, at), offset) <==> is_char_boundary(bytes, at + offset),
{
    let tail = rest(bytes, at);
    is_char_boundary_start_end_of_seq(bytes);
    is_char_boundary_start_end_of_seq(tail);
    if at + offset < bytes.len() {
        is_char_boundary_iff_not_is_continuation_byte(bytes, at + offset);
        is_char_boundary_iff_not_is_continuation_byte(tail, offset);
        assert(tail[offset] == bytes[at + offset]);
    }
}

/// Boundaries of a prefix that ends at a boundary are the boundaries of the
/// whole up to there.
pub proof fn lemma_boundary_of_prefix(bytes: Seq<u8>, end: int, index: int)
    requires
        valid_utf8(bytes),
        is_char_boundary(bytes, end),
        0 <= index <= end <= bytes.len(),
        valid_utf8(bytes.subrange(0, end)),
    ensures
        is_char_boundary(bytes.subrange(0, end), index) <==> is_char_boundary(bytes, index),
{
    let head = bytes.subrange(0, end);
    is_char_boundary_start_end_of_seq(head);
    if index < end {
        is_char_boundary_iff_not_is_continuation_byte(bytes, index);
        is_char_boundary_iff_not_is_continuation_byte(head, index);
        assert(head[index] == bytes[index]);
    }
}

/// The number of scalars in valid UTF-8.
pub fn count_scalars(bytes: &[u8]) -> (count: usize)
    requires
        valid_utf8(bytes@),
    ensures
        count == decode_utf8(bytes@).len(),
        count <= bytes@.len(),
{
    let mut at: usize = 0;
    let mut count: usize = 0;
    proof {
        is_char_boundary_start_end_of_seq(bytes@);
        assert(bytes@.subrange(0, 0) =~= Seq::<u8>::empty());
    }
    while at < bytes.len()
        invariant
            valid_utf8(bytes@),
            at <= bytes@.len(),
            is_char_boundary(bytes@, at as int),
            valid_utf8(bytes@.subrange(0, at as int)),
            count == decode_utf8(bytes@.subrange(0, at as int)).len(),
            count <= at,
        decreases bytes@.len() - at,
    {
        proof {
            lemma_step(bytes@, at as int);
        }
        match decode_scalar(bytes, at) {
            None => {
                assert(false);
            },
            Some((_, width)) => {
                at = at + width;
                count = count + 1;
            },
        }
    }
    assert(bytes@.subrange(0, at as int) =~= bytes@);
    count
}

/// Appends the encoding of one scalar.
pub fn push_scalar(out: &mut Vec<u8>, scalar: u32)
    requires
        is_scalar(scalar),
    ensures
        final(out)@ == old(out)@ + encode_scalar(scalar),
{
    if scalar <= 0x7f {
        out.push((scalar & 0x7F) as u8);
    } else if scalar <= 0x7ff {
        out.push(0xC0 | ((scalar >> 6) & 0x1F) as u8);
        out.push(0x80 | (scalar & 0x3F) as u8);
    } else if scalar <= 0xffff {
        out.push(0xE0 | ((scalar >> 12) & 0x0F) as u8);
        out.push(0x80 | ((scalar >> 6) & 0x3F) as u8);
        out.push(0x80 | (scalar & 0x3F) as u8);
    } else {
        out.push(0xF0 | ((scalar >> 18) & 0x7) as u8);
        out.push(0x80 | ((scalar >> 12) & 0x3F) as u8);
        out.push(0x80 | ((scalar >> 6) & 0x3F) as u8);
        out.push(0x80 | (scalar & 0x3F) as u8);
    }
    assert(out@ =~= old(out)@ + encode_scalar(scalar));
}

/// Converts bytes to a string.
///
/// Calls `String::from_utf8`, which succeeds exactly on valid UTF-8 and then
/// holds the text that the bytes encode.
#[verifier::external_body]
pub(crate) fn string_from_utf8(bytes: Vec<u8>) -> (result: Option<String>)
    ensures
        result is Some <==> valid_utf8(bytes@),
        result matches Some(text) ==> text@ == decode_utf8(bytes@),
{
    String::from_utf8(bytes).ok()
}

} // verus!
