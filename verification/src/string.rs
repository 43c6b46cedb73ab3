//! String operations as generated code calls them.
//!
//! A string crosses the boundary as a block of bytes: its length in bytes as a
//! little-endian 64-bit number, and then exactly that many bytes of UTF-8. What
//! an operation makes goes to the persistent or to the temporary arena of the
//! context, and the address of its block is the result.

use vstd::bytes::{
    lemma_auto_spec_u64_to_from_le_bytes, spec_u64_from_le_bytes, spec_u64_to_le_bytes,
    u64_from_le_bytes, u64_to_le_bytes,
};
use vstd::prelude::*;
use vstd::slice::{slice_subrange, slice_to_vec};
use vstd::utf8::*;

use crate::context::ExecutionContext;
use crate::memory::same_bytes;
use crate::scalars::{
    chars_of, find_from, find_last, first_from, last_up_to, lemma_first_from, matches_at, occurs_at,
    occurs_in, scalars_of,
};
use crate::string_store::{joined, string_block, STRING_HEADER_SIZE};
use crate::text::{decimal, push_decimal, push_signed_decimal, signed_decimal};
use crate::utf8::{count_scalars, decode_scalar, is_utf8, push_scalar, rest, string_from_utf8};

verus! {

/// The header that precedes the UTF-8 bytes of a string.
pub struct AsterStrHeader {
    /// Length of the bytes behind the header. Not a character count.
    pub len: u64,
}

impl AsterStrHeader {
    /// Reads the header of a block that is long enough to hold one.
    pub fn read(block: &[u8]) -> (header: Option<Self>)
        ensures
            header is Some <==> block@.len() >= STRING_HEADER_SIZE,
            header matches Some(h) ==> h.len == spec_u64_from_le_bytes(block@.take(8)),
    {
        if block.len() < STRING_HEADER_SIZE {
            return None;
        }
        assert(block@.subrange(0, 8) =~= block@.take(8));
        Some(AsterStrHeader { len: u64_from_le_bytes(slice_subrange(block, 0, 8)) })
    }
}

/// The bytes that a block says it holds.
pub open spec fn raw_payload(string: Option<&[u8]>) -> Option<Seq<u8>> {
    match string {
        None => None,
        Some(block) => {
            let length = spec_u64_from_le_bytes(block@.take(8));
            if block@.len() < STRING_HEADER_SIZE || STRING_HEADER_SIZE + length > block@.len() {
                None
            } else {
                Some(block@.subrange(8, 8 + length))
            }
        },
    }
}

/// The bytes of a block that holds valid UTF-8.
pub open spec fn text_payload(string: Option<&[u8]>) -> Option<Seq<u8>> {
    match raw_payload(string) {
        Some(payload) if valid_utf8(payload) => Some(payload),
        _ => None,
    }
}

/// The characters of a block that holds valid UTF-8.
pub open spec fn text_of(string: Option<&[u8]>) -> Option<Seq<char>> {
    match text_payload(string) {
        Some(payload) => Some(decode_utf8(payload)),
        None => None,
    }
}

/// Encodes text as a block.
pub fn encode_str(value: &str) -> (block: Vec<u8>)
    ensures
        block@ == string_block(encode_utf8(value@)),
{
    let bytes: &[u8] = value.as_bytes();
    let mut block: Vec<u8> = u64_to_le_bytes(bytes.len() as u64);
    let ghost start = block@;
    block.extend_from_slice(bytes);
    assert(block@ =~= start + bytes@);
    block
}

/// The bytes behind the header of a block, whatever they hold.
pub fn raw_bytes<'a>(string: Option<&'a [u8]>) -> (payload: Option<&'a [u8]>)
    ensures
        payload is Some <==> raw_payload(string) is Some,
        payload matches Some(bytes) ==> raw_payload(string) == Some(bytes@),
{
    let block: &[u8] = match string {
        None => {
            return None;
        },
        Some(block) => block,
    };
    match AsterStrHeader::read(block) {
        None => None,
        Some(header) => if header.len > (block.len() - STRING_HEADER_SIZE) as u64 {
            None
        } else {
            Some(slice_subrange(block, 8, 8 + header.len as usize))
        },
    }
}

/// The bytes of a block that holds valid UTF-8. Anything else gives nothing, so
/// that malformed input leads to a controlled failure.
pub fn view_str<'a>(string: Option<&'a [u8]>) -> (payload: Option<&'a [u8]>)
    ensures
        payload is Some <==> text_payload(string) is Some,
        payload matches Some(bytes) ==> text_payload(string) == Some(bytes@) && valid_utf8(bytes@),
{
    match raw_bytes(string) {
        None => None,
        Some(bytes) => if is_utf8(bytes) {
            Some(bytes)
        } else {
            None
        },
    }
}

/// Copies the text of a block out.
pub fn decode_str(string: Option<&[u8]>) -> (text: Option<String>)
    ensures
        text is Some <==> text_of(string) is Some,
        text matches Some(t) ==> text_of(string) == Some(t@),
{
    match view_str(string) {
        None => None,
        Some(bytes) => string_from_utf8(slice_to_vec(bytes)),
    }
}

/// Text that was encoded is decoded again.
pub proof fn law_decode_undoes_encode(value: Seq<char>, block: &[u8])
    requires
        block@ == string_block(encode_utf8(value)),
        encode_utf8(value).len() <= u64::MAX,
    ensures
        text_of(Some(block)) == Some(value),
{
    lemma_auto_spec_u64_to_from_le_bytes();
    let payload = encode_utf8(value);
    let header = spec_u64_to_le_bytes(payload.len() as u64);
    assert(block@.take(8) =~= header);
    assert(block@.subrange(8, 8 + payload.len() as int) =~= payload);
    encode_utf8_valid_utf8(value);
    encode_utf8_decode_utf8(value);
}

/// Compares two strings by content. A null or malformed operand is equal to
/// nothing, not even to itself.
pub fn aster_rt_string_eq(left: Option<&[u8]>, right: Option<&[u8]>) -> (equal: i8)
    ensures
        equal == if text_payload(left) is Some && text_payload(left) == text_payload(right) {
            1i8
        } else {
            0i8
        },
{
    match (view_str(left), view_str(right)) {
        (Some(left), Some(right)) => if same_bytes(left, right) {
            1
        } else {
            0
        },
        _ => 0,
    }
}

impl ExecutionContext {
    /// What an operation that makes a string makes of the context `before`: the
    /// report, or the string.
    pub open spec fn text_outcome(
        &self,
        before: Self,
        temporary: bool,
        made: Result<Seq<u8>, Seq<char>>,
        result: Option<u64>,
    ) -> bool {
        match made {
            Ok(payload) => self.string_outcome(before, temporary, payload, result),
            Err(text) => result is None && self.only_failed(before, text),
        }
    }
}

/// What a concatenation makes.
pub open spec fn concat_made(left: Option<&[u8]>, right: Option<&[u8]>) -> Result<
    Seq<u8>,
    Seq<char>,
> {
    match (text_payload(left), text_payload(right)) {
        (Some(a), Some(b)) => Ok(a + b),
        _ => Err("string concatenation received an invalid UTF-8 string reference"@),
    }
}

/// Does the work of the two calls below.
fn string_concat(
    context: Option<&mut ExecutionContext>,
    left: Option<&[u8]>,
    right: Option<&[u8]>,
    temporary: bool,
) -> (result: Option<u64>)
    requires
        context matches Some(c) ==> c.wf(),
    ensures
        context is None ==> result is None,
        context matches Some(c) ==> {
            &&& final(c).wf()
            &&& c.scoped() ==> final(c).scoped()
            &&& final(c).text_outcome(*c, temporary, concat_made(left, right), result)
        },
{
    let context: &mut ExecutionContext = match context {
        None => {
            return None;
        },
        Some(context) => context,
    };
    match (view_str(left), view_str(right)) {
        (Some(left), Some(right)) => {
            let parts: [&[u8]; 2] = [left, right];
            proof {
                reveal_with_fuel(joined, 3);
                assert(parts@.drop_last().drop_last() =~= Seq::<&[u8]>::empty());
                assert(joined(parts@) =~= left@ + right@);
            }
            context.allocate_string_parts_in_region(&parts, temporary)
        },
        _ => {
            context.fail_with(
                "string concatenation received an invalid UTF-8 string reference",
            );
            None
        },
    }
}

/// Concatenates two strings into a new one, also where one of them is empty.
pub fn aster_rt_string_concat(
    context: Option<&mut ExecutionContext>,
    left: Option<&[u8]>,
    right: Option<&[u8]>,
) -> (result: Option<u64>)
    requires
        context matches Some(c) ==> c.wf(),
    ensures
        context is None ==> result is None,
        context matches Some(c) ==> {
            &&& final(c).wf()
            &&& c.scoped() ==> final(c).scoped()
            &&& final(c).text_outcome(*c, false, concat_made(left, right), result)
        },
{
    string_concat(context, left, right, false)
}

/// Concatenates two strings into a new one, also where one of them is empty.
/// The result lives until its scope is left.
pub fn aster_rt_string_concat_temporary(
    context: Option<&mut ExecutionContext>,
    left: Option<&[u8]>,
    right: Option<&[u8]>,
) -> (result: Option<u64>)
    requires
        context matches Some(c) ==> c.wf(),
    ensures
        context is None ==> result is None,
        context matches Some(c) ==> {
            &&& final(c).wf()
            &&& c.scoped() ==> final(c).scoped()
            &&& final(c).text_outcome(*c, true, concat_made(left, right), result)
        },
{
    string_concat(context, left, right, true)
}

/// How long the text of a scalar can be.
pub const DISPLAY_TEXT_LIMIT: usize = 384;

/// A buffer for the text of one scalar.
pub struct DisplayText {
    bytes: Vec<u8>,
}

impl View for DisplayText {
    type V = Seq<u8>;

    closed spec fn view(&self) -> Seq<u8> {
        self.bytes@
    }
}

impl DisplayText {
    pub fn new() -> (text: Self)
        ensures
            text@ == Seq::<u8>::empty(),
    {
        DisplayText { bytes: Vec::new() }
    }

    /// The text that was written.
    pub fn as_bytes(&self) -> (bytes: &[u8])
        ensures
            bytes@ == self@,
    {
        self.bytes.as_slice()
    }

    /// Writes more text, if there is room for all of it.
    pub fn write_str(&mut self, text: &[u8]) -> (written: bool)
        ensures
            written == (old(self)@.len() + text@.len() <= DISPLAY_TEXT_LIMIT),
            final(self)@ == if written {
                old(self)@ + text@
            } else {
                old(self)@
            },
    {
        let length: usize = self.bytes.len();
        if length > DISPLAY_TEXT_LIMIT || text.len() > DISPLAY_TEXT_LIMIT - length {
            return false;
        }
        self.bytes.extend_from_slice(text);
        assert(self.bytes@ =~= old(self)@ + text@);
        true
    }
}

/// The text of a scalar, if it fits the buffer.
pub fn display_text(text: &[u8]) -> (result: Option<DisplayText>)
    ensures
        result is Some <==> text@.len() <= DISPLAY_TEXT_LIMIT,
        result matches Some(display) ==> display@ == text@,
{
    let mut display = DisplayText::new();
    if display.write_str(text) {
        assert(display@ =~= text@);
        Some(display)
    } else {
        None
    }
}

/// What the text of a scalar makes.
pub open spec fn display_made(text: Seq<u8>) -> Result<Seq<u8>, Seq<char>> {
    if text.len() > DISPLAY_TEXT_LIMIT {
        Err("scalar formatting exceeded the runtime buffer"@)
    } else {
        Ok(text)
    }
}

/// Stores the text of a scalar.
fn string_from_display(
    context: Option<&mut ExecutionContext>,
    text: &[u8],
    temporary: bool,
) -> (result: Option<u64>)
    requires
        context matches Some(c) ==> c.wf(),
    ensures
        context is None ==> result is None,
        context matches Some(c) ==> {
            &&& final(c).wf()
            &&& c.scoped() ==> final(c).scoped()
            &&& final(c).text_outcome(*c, temporary, display_made(text@), result)
        },
{
    let context: &mut ExecutionContext = match context {
        None => {
            return None;
        },
        Some(context) => context,
    };
    match display_text(text) {
        None => {
            context.fail_with("scalar formatting exceeded the runtime buffer");
            None
        },
        Some(display) => context.allocate_text(display.as_bytes(), temporary),
    }
}

/// Does the work of the two calls below.
fn string_from_long(
    context: Option<&mut ExecutionContext>,
    value: i64,
    temporary: bool,
) -> (result: Option<u64>)
    requires
        context matches Some(c) ==> c.wf(),
    ensures
        context is None ==> result is None,
        context matches Some(c) ==> {
            &&& final(c).wf()
            &&& c.scoped() ==> final(c).scoped()
            &&& final(c).text_outcome(*c, temporary, display_made(encode_utf8(signed_decimal(value as int))), result)
        },
{
    let mut text: String = String::new();
    push_signed_decimal(&mut text, value);
    assert(text@ =~= signed_decimal(value as int));
    string_from_display(context, text.as_str().as_bytes(), temporary)
}

/// Converts a signed integer to its decimal text.
pub fn aster_rt_string_from_long(
    context: Option<&mut ExecutionContext>,
    value: i64,
) -> (result: Option<u64>)
    requires
        context matches Some(c) ==> c.wf(),
    ensures
        context is None ==> result is None,
        context matches Some(c) ==> {
            &&& final(c).wf()
            &&& c.scoped() ==> final(c).scoped()
            &&& final(c).text_outcome(*c, false, display_made(encode_utf8(signed_decimal(value as int))), result)
        },
{
    string_from_long(context, value, false)
}

/// Converts a signed integer to its decimal text. The result lives until its
/// scope is left.
pub fn aster_rt_string_from_long_temporary(
    context: Option<&mut ExecutionContext>,
    value: i64,
) -> (result: Option<u64>)
    requires
        context matches Some(c) ==> c.wf(),
    ensures
        context is None ==> result is None,
        context matches Some(c) ==> {
            &&& final(c).wf()
            &&& c.scoped() ==> final(c).scoped()
            &&& final(c).text_outcome(*c, true, display_made(encode_utf8(signed_decimal(value as int))), result)
        },
{
    string_from_long(context, value, true)
}

/// Does the work of the two calls below.
fn string_from_ulong(
    context: Option<&mut ExecutionContext>,
    value: i64,
    temporary: bool,
) -> (result: Option<u64>)
    requires
        context matches Some(c) ==> c.wf(),
    ensures
        context is None ==> result is None,
        context matches Some(c) ==> {
            &&& final(c).wf()
            &&& c.scoped() ==> final(c).scoped()
            &&& final(c).text_outcome(*c, temporary, display_made(encode_utf8(decimal(value as u64 as nat))), result)
        },
{
    let mut text: String = String::new();
    push_decimal(&mut text, value as u64);
    assert(text@ =~= decimal(value as u64 as nat));
    string_from_display(context, text.as_str().as_bytes(), temporary)
}

/// Converts an unsigned integer, which comes as the signed integer of the
/// same bits, to its decimal text.
pub fn aster_rt_string_from_ulong(
    context: Option<&mut ExecutionContext>,
    value: i64,
) -> (result: Option<u64>)
    requires
        context matches Some(c) ==> c.wf(),
    ensures
        context is None ==> result is None,
        context matches Some(c) ==> {
            &&& final(c).wf()
            &&& c.scoped() ==> final(c).scoped()
            &&& final(c).text_outcome(*c, false, display_made(encode_utf8(decimal(value as u64 as nat))), result)
        },
{
    string_from_ulong(context, value, false)
}

/// Converts an unsigned integer, which comes as the signed integer of the
/// same bits, to its decimal text. The result lives until its scope is left.
pub fn aster_rt_string_from_ulong_temporary(
    context: Option<&mut ExecutionContext>,
    value: i64,
) -> (result: Option<u64>)
    requires
        context matches Some(c) ==> c.wf(),
    ensures
        context is None ==> result is None,
        context matches Some(c) ==> {
            &&& final(c).wf()
            &&& c.scoped() ==> final(c).scoped()
            &&& final(c).text_outcome(*c, true, display_made(encode_utf8(decimal(value as u64 as nat))), result)
        },
{
    string_from_ulong(context, value, true)
}

/// Does the work of the two calls below.
fn string_from_double(
    context: Option<&mut ExecutionContext>,
    text: &[u8],
    temporary: bool,
) -> (result: Option<u64>)
    requires
        context matches Some(c) ==> c.wf(),
    ensures
        context is None ==> result is None,
        context matches Some(c) ==> {
            &&& final(c).wf()
            &&& c.scoped() ==> final(c).scoped()
            &&& final(c).text_outcome(*c, temporary, display_made(text@), result)
        },
{
    string_from_display(context, text, temporary)
}

/// Stores the text of a `double`, as the host formatted it.
pub fn aster_rt_string_from_double(
    context: Option<&mut ExecutionContext>,
    text: &[u8],
) -> (result: Option<u64>)
    requires
        context matches Some(c) ==> c.wf(),
    ensures
        context is None ==> result is None,
        context matches Some(c) ==> {
            &&& final(c).wf()
            &&& c.scoped() ==> final(c).scoped()
            &&& final(c).text_outcome(*c, false, display_made(text@), result)
        },
{
    string_from_double(context, text, false)
}

/// Stores the text of a `double`, as the host formatted it. The result lives
/// until its scope is left.
pub fn aster_rt_string_from_double_temporary(
    context: Option<&mut ExecutionContext>,
    text: &[u8],
) -> (result: Option<u64>)
    requires
        context matches Some(c) ==> c.wf(),
    ensures
        context is None ==> result is None,
        context matches Some(c) ==> {
            &&& final(c).wf()
            &&& c.scoped() ==> final(c).scoped()
            &&& final(c).text_outcome(*c, true, display_made(text@), result)
        },
{
    string_from_double(context, text, true)
}

/// Does the work of the two calls below.
fn string_from_float(
    context: Option<&mut ExecutionContext>,
    text: &[u8],
    temporary: bool,
) -> (result: Option<u64>)
    requires
        context matches Some(c) ==> c.wf(),
    ensures
        context is None ==> result is None,
        context matches Some(c) ==> {
            &&& final(c).wf()
            &&& c.scoped() ==> final(c).scoped()
            &&& final(c).text_outcome(*c, temporary, display_made(text@), result)
        },
{
    string_from_display(context, text, temporary)
}

/// Stores the text of a `float`, as the host formatted it.
pub fn aster_rt_string_from_float(
    context: Option<&mut ExecutionContext>,
    text: &[u8],
) -> (result: Option<u64>)
    requires
        context matches Some(c) ==> c.wf(),
    ensures
        context is None ==> result is None,
        context matches Some(c) ==> {
            &&& final(c).wf()
            &&& c.scoped() ==> final(c).scoped()
            &&& final(c).text_outcome(*c, false, display_made(text@), result)
        },
{
    string_from_float(context, text, false)
}

/// Stores the text of a `float`, as the host formatted it. The result lives
/// until its scope is left.
pub fn aster_rt_string_from_float_temporary(
    context: Option<&mut ExecutionContext>,
    text: &[u8],
) -> (result: Option<u64>)
    requires
        context matches Some(c) ==> c.wf(),
    ensures
        context is None ==> result is None,
        context matches Some(c) ==> {
            &&& final(c).wf()
            &&& c.scoped() ==> final(c).scoped()
            &&& final(c).text_outcome(*c, true, display_made(text@), result)
        },
{
    string_from_float(context, text, true)
}

/// The name of a truth value.
pub open spec fn bool_text(value: i8) -> Seq<char> {
    if value != 0 {
        "true"@
    } else {
        "false"@
    }
}

/// Does the work of the two calls below.
fn string_from_bool(
    context: Option<&mut ExecutionContext>,
    value: i8,
    temporary: bool,
) -> (result: Option<u64>)
    requires
        context matches Some(c) ==> c.wf(),
    ensures
        context is None ==> result is None,
        context matches Some(c) ==> {
            &&& final(c).wf()
            &&& c.scoped() ==> final(c).scoped()
            &&& final(c).text_outcome(*c, temporary, display_made(encode_utf8(bool_text(value))), result)
        },
{
    let text: &str = if value != 0 {
        "true"
    } else {
        "false"
    };
    string_from_display(context, text.as_bytes(), temporary)
}

/// Converts a truth value to its name. Only zero is false.
pub fn aster_rt_string_from_bool(
    context: Option<&mut ExecutionContext>,
    value: i8,
) -> (result: Option<u64>)
    requires
        context matches Some(c) ==> c.wf(),
    ensures
        context is None ==> result is None,
        context matches Some(c) ==> {
            &&& final(c).wf()
            &&& c.scoped() ==> final(c).scoped()
            &&& final(c).text_outcome(*c, false, display_made(encode_utf8(bool_text(value))), result)
        },
{
    string_from_bool(context, value, false)
}

/// Converts a truth value to its name. Only zero is false. The result lives
/// until its scope is left.
pub fn aster_rt_string_from_bool_temporary(
    context: Option<&mut ExecutionContext>,
    value: i8,
) -> (result: Option<u64>)
    requires
        context matches Some(c) ==> c.wf(),
    ensures
        context is None ==> result is None,
        context matches Some(c) ==> {
            &&& final(c).wf()
            &&& c.scoped() ==> final(c).scoped()
            &&& final(c).text_outcome(*c, true, display_made(encode_utf8(bool_text(value))), result)
        },
{
    string_from_bool(context, value, true)
}

/// What one character makes.
pub open spec fn char_made(value: u32) -> Result<Seq<u8>, Seq<char>> {
    if is_scalar(value) {
        Ok(encode_scalar(value))
    } else {
        Err("string interpolation received an invalid `char` value"@)
    }
}

/// Does the work of the two calls below.
fn string_from_char(
    context: Option<&mut ExecutionContext>,
    value: u32,
    temporary: bool,
) -> (result: Option<u64>)
    requires
        context matches Some(c) ==> c.wf(),
    ensures
        context is None ==> result is None,
        context matches Some(c) ==> {
            &&& final(c).wf()
            &&& c.scoped() ==> final(c).scoped()
            &&& final(c).text_outcome(*c, temporary, char_made(value), result)
        },
{
    let context: &mut ExecutionContext = match context {
        None => {
            return None;
        },
        Some(context) => context,
    };
    let valid: bool = value <= 0xd7ff || (0xe000 <= value && value <= 0x10ffff);
    if !valid {
        context.fail_with("string interpolation received an invalid `char` value");
        return None;
    }
    let mut bytes: Vec<u8> = Vec::new();
    push_scalar(&mut bytes, value);
    assert(bytes@ =~= encode_scalar(value));
    context.allocate_text(bytes.as_slice(), temporary)
}

/// Converts one Unicode scalar value to a string of one character.
pub fn aster_rt_string_from_char(
    context: Option<&mut ExecutionContext>,
    value: u32,
) -> (result: Option<u64>)
    requires
        context matches Some(c) ==> c.wf(),
    ensures
        context is None ==> result is None,
        context matches Some(c) ==> {
            &&& final(c).wf()
            &&& c.scoped() ==> final(c).scoped()
            &&& final(c).text_outcome(*c, false, char_made(value), result)
        },
{
    string_from_char(context, value, false)
}

/// Converts one Unicode scalar value to a string of one character. The result
/// lives until its scope is left.
pub fn aster_rt_string_from_char_temporary(
    context: Option<&mut ExecutionContext>,
    value: u32,
) -> (result: Option<u64>)
    requires
        context matches Some(c) ==> c.wf(),
    ensures
        context is None ==> result is None,
        context matches Some(c) ==> {
            &&& final(c).wf()
            &&& c.scoped() ==> final(c).scoped()
            &&& final(c).text_outcome(*c, true, char_made(value), result)
        },
{
    string_from_char(context, value, true)
}

/// The payloads of the first `n` blocks, one behind the other, if all of them hold
/// text.
pub open spec fn parts_payload(parts: Seq<Option<&[u8]>>, n: int) -> Option<Seq<u8>>
    decreases n,
{
    if n <= 0 {
        Some(Seq::empty())
    } else {
        match (parts_payload(parts, n - 1), text_payload(parts[n - 1])) {
            (Some(before), Some(last)) => Some(before + last),
            _ => None,
        }
    }
}

/// What an interpolation makes.
pub open spec fn join_made(parts: Seq<Option<&[u8]>>, count: int) -> Result<Seq<u8>, Seq<char>> {
    match parts_payload(parts, count) {
        Some(payload) => Ok(payload),
        None => Err("string interpolation received an invalid UTF-8 string reference"@),
    }
}

proof fn lemma_parts_missing(parts: Seq<Option<&[u8]>>, i: int, n: int)
    requires
        0 <= i < n,
        text_payload(parts[i]) is None,
    ensures
        parts_payload(parts, n) is None,
    decreases n,
{
    if n > i + 1 {
        lemma_parts_missing(parts, i, n - 1);
    }
}

/// The payloads of the first `count` blocks, if all of them hold text.
fn views_of<'a>(parts: &[Option<&'a [u8]>], count: usize) -> (views: Option<Vec<&'a [u8]>>)
    requires
        count <= parts@.len(),
    ensures
        views is Some <==> parts_payload(parts@, count as int) is Some,
        views matches Some(v) ==> parts_payload(parts@, count as int) == Some(joined(v@)),
{
    let mut views: Vec<&[u8]> = Vec::new();
    let mut i: usize = 0;
    while i < count
        invariant
            i <= count <= parts@.len(),
            views@.len() == i,
            parts_payload(parts@, i as int) == Some(joined(views@)),
        decreases count - i,
    {
        match view_str(parts[i]) {
            None => {
                proof {
                    lemma_parts_missing(parts@, i as int, count as int);
                }
                return None;
            },
            Some(text) => {
                let ghost before = views@;
                views.push(text);
                assert(views@.drop_last() =~= before);
                i = i + 1;
            },
        }
    }
    Some(views)
}

/// Does the work of the two calls below.
fn string_join(
    context: Option<&mut ExecutionContext>,
    parts: Option<&[Option<&[u8]>]>,
    count: i32,
    temporary: bool,
) -> (result: Option<u64>)
    requires
        context matches Some(c) ==> c.wf(),
        parts matches Some(p) ==> p@.len() >= count,
    ensures
        context is None || parts is None || count < 0 ==> result is None,
        context matches Some(c) ==> {
            &&& final(c).wf()
            &&& c.scoped() ==> final(c).scoped()
            &&& parts is None || count < 0 ==> final(c).unchanged(*c)
            &&& parts matches Some(p) ==> count >= 0 ==> final(c).text_outcome(
                *c,
                temporary,
                join_made(p@, count as int),
                result,
            )
        },
{
    let context: &mut ExecutionContext = match context {
        None => {
            return None;
        },
        Some(context) => context,
    };
    let parts: &[Option<&[u8]>] = match parts {
        None => {
            return None;
        },
        Some(parts) => parts,
    };
    if count < 0 {
        return None;
    }
    match views_of(parts, count as usize) {
        None => {
            context.fail_with("string interpolation received an invalid UTF-8 string reference");
            None
        },
        Some(views) => context.allocate_string_parts_in_region(views.as_slice(), temporary),
    }
}

/// Joins the first `count` parts into one string.
pub fn aster_rt_string_join(
    context: Option<&mut ExecutionContext>,
    parts: Option<&[Option<&[u8]>]>,
    count: i32,
) -> (result: Option<u64>)
    requires
        context matches Some(c) ==> c.wf(),
        parts matches Some(p) ==> p@.len() >= count,
    ensures
        context is None || parts is None || count < 0 ==> result is None,
        context matches Some(c) ==> {
            &&& final(c).wf()
            &&& c.scoped() ==> final(c).scoped()
            &&& parts is None || count < 0 ==> final(c).unchanged(*c)
            &&& parts matches Some(p) ==> count >= 0 ==> final(c).text_outcome(
                *c,
                false,
                join_made(p@, count as int),
                result,
            )
        },
{
    string_join(context, parts, count, false)
}

/// Joins the first `count` parts into one string. The result lives until its
/// scope is left.
pub fn aster_rt_string_join_temporary(
    context: Option<&mut ExecutionContext>,
    parts: Option<&[Option<&[u8]>]>,
    count: i32,
) -> (result: Option<u64>)
    requires
        context matches Some(c) ==> c.wf(),
        parts matches Some(p) ==> p@.len() >= count,
    ensures
        context is None || parts is None || count < 0 ==> result is None,
        context matches Some(c) ==> {
            &&& final(c).wf()
            &&& c.scoped() ==> final(c).scoped()
            &&& parts is None || count < 0 ==> final(c).unchanged(*c)
            &&& parts matches Some(p) ==> count >= 0 ==> final(c).text_outcome(
                *c,
                true,
                join_made(p@, count as int),
                result,
            )
        },
{
    string_join(context, parts, count, true)
}

/// The report that an operation got something that is no text.
pub open spec fn reference_text(operation: Seq<char>) -> Seq<char> {
    "String."@ + operation + " received an invalid UTF-8 string reference"@
}

impl ExecutionContext {
    /// Records a report about one operation on strings.
    pub(crate) fn fail_string(&mut self, operation: &str, rest: &str)
        requires
            old(self).wf(),
        ensures
            final(self).wf(),
            final(self).only_failed(*old(self), "String."@ + operation@ + rest@),
    {
        let mut message: String = "String.".to_owned();
        message.append(operation);
        message.append(rest);
        self.fail(message);
    }
}

/// What keeps characters from being counted.
pub open spec fn length_report(value: Option<&[u8]>) -> Option<Seq<char>> {
    match text_of(value) {
        None => Some("string Length received an invalid UTF-8 string reference"@),
        Some(text) => if text.len() > i32::MAX {
            Some("string Length exceeds the supported `int` range"@)
        } else {
            None
        },
    }
}

/// The number of Unicode scalar values in a string.
pub fn aster_rt_string_length(
    context: Option<&mut ExecutionContext>,
    value: Option<&[u8]>,
) -> (length: i32)
    requires
        context matches Some(c) ==> c.wf(),
    ensures
        context matches Some(c) ==> final(c).wf() && final(c).reported(
            *c,
            length_report(value),
        ),
        length == if context is Some && length_report(value) is None {
            text_of(value)->0.len() as i32
        } else {
            0
        },
{
    let context: &mut ExecutionContext = match context {
        None => {
            return 0;
        },
        Some(context) => context,
    };
    match view_str(value) {
        None => {
            context.fail_with("string Length received an invalid UTF-8 string reference");
            0
        },
        Some(bytes) => {
            let count: usize = count_scalars(bytes);
            if count > 0x7fff_ffff {
                context.fail_with("string Length exceeds the supported `int` range");
                0
            } else {
                count as i32
            }
        },
    }
}

/// What keeps the bytes of a string from being counted.
pub open spec fn byte_length_report(value: Option<&[u8]>) -> Option<Seq<char>> {
    match value {
        Some(block) if block@.len() >= STRING_HEADER_SIZE && spec_u64_from_le_bytes(block@.take(8))
            > i32::MAX => Some(
            "string foreach byte length exceeds the supported `int` range"@,
        ),
        _ => None,
    }
}

/// The number of bytes in a string, as its header says it.
pub fn aster_rt_string_byte_length(
    context: Option<&mut ExecutionContext>,
    value: Option<&[u8]>,
) -> (length: i32)
    requires
        context matches Some(c) ==> c.wf(),
    ensures
        context matches Some(c) ==> final(c).wf() && final(c).reported(
            *c,
            byte_length_report(value),
        ),
        length == match value {
            Some(block) if context is Some && block@.len() >= STRING_HEADER_SIZE
                && byte_length_report(value) is None => spec_u64_from_le_bytes(
                block@.take(8),
            ) as i32,
            _ => 0i32,
        },
{
    match (context, value) {
        (Some(context), Some(block)) => {
            if block.len() < STRING_HEADER_SIZE {
                return 0;
            }
            assert(block@.subrange(0, 8) =~= block@.take(8));
            let length: u64 = u64_from_le_bytes(slice_subrange(block, 0, 8));
            if length > 0x7fff_ffff {
                context.fail_with("string foreach byte length exceeds the supported `int` range");
                0
            } else {
                length as i32
            }
        },
        _ => 0,
    }
}

/// Why no scalar can be decoded at a place.
pub open spec fn scalar_report(bytes: Seq<u8>, cursor: int) -> Option<Seq<char>> {
    if cursor >= bytes.len() {
        Some("string foreach cursor is out of bounds"@)
    } else {
        let lead = bytes[cursor];
        let left = bytes.len() - cursor;
        if 0x80 <= lead < 0xc0 || lead >= 0xf8 {
            Some("string foreach found an invalid UTF-8 leading byte"@)
        } else if lead >= 0xc0 && left < 2 || lead >= 0xe0 && left < 3 || lead >= 0xf0 && left < 4 {
            Some("string foreach found a truncated UTF-8 sequence"@)
        } else if !valid_first_scalar(rest(bytes, cursor)) {
            Some("string foreach found an invalid UTF-8 sequence"@)
        } else {
            None
        }
    }
}

/// Decodes the one scalar that starts at byte `cursor`, and tells how many bytes
/// it takes. Looks at no more than four bytes.
pub fn decode_scalar_at(bytes: &[u8], cursor: usize) -> (result: Result<(u32, usize), &'static str>)
    ensures
        result is Ok <==> scalar_report(bytes@, cursor as int) is None,
        result matches Err(text) ==> scalar_report(bytes@, cursor as int) == Some(text@),
        result matches Ok((scalar, width)) ==> {
            &&& scalar == decode_first_scalar(rest(bytes@, cursor as int))
            &&& width == length_of_first_scalar(rest(bytes@, cursor as int))
            &&& cursor + width <= bytes@.len()
            &&& is_scalar(scalar)
        },
{
    let len: usize = bytes.len();
    if cursor >= len {
        return Err("string foreach cursor is out of bounds");
    }
    let lead: u8 = bytes[cursor];
    let width: usize = if lead < 0x80 {
        1
    } else if 0xc0 <= lead && lead < 0xe0 {
        2
    } else if 0xe0 <= lead && lead < 0xf0 {
        3
    } else if 0xf0 <= lead && lead < 0xf8 {
        4
    } else {
        return Err("string foreach found an invalid UTF-8 leading byte");
    };
    if len - cursor < width {
        return Err("string foreach found a truncated UTF-8 sequence");
    }
    match decode_scalar(bytes, cursor) {
        None => Err("string foreach found an invalid UTF-8 sequence"),
        Some(decoded) => Ok(decoded),
    }
}

/// Why the next character cannot be handed out.
pub open spec fn decode_next_report(
    string: Option<&[u8]>,
    cursor: i32,
    has_destinations: bool,
) -> Option<Seq<char>> {
    if !has_destinations {
        Some("string foreach received a null decode destination"@)
    } else {
        match raw_payload(string) {
            None => Some("string foreach received an invalid string reference"@),
            Some(bytes) => if cursor < 0 {
                Some("string foreach cursor is negative"@)
            } else if scalar_report(bytes, cursor as int) is Some {
                scalar_report(bytes, cursor as int)
            } else if cursor + length_of_first_scalar(rest(bytes, cursor as int)) > i32::MAX {
                Some("string foreach cursor overflow"@)
            } else {
                None
            },
        }
    }
}

/// Decodes the character at byte `cursor`, and writes it and the place of the
/// next one. Gives one on success. On failure, which is reported, it gives zero
/// and writes nothing.
pub fn aster_rt_string_decode_next(
    context: Option<&mut ExecutionContext>,
    string: Option<&[u8]>,
    cursor: i32,
    scalar_destination: Option<&mut i32>,
    next_cursor_destination: Option<&mut i32>,
) -> (decoded: i8)
    requires
        context matches Some(c) ==> c.wf(),
    ensures
        ({
            let report = decode_next_report(
                string,
                cursor,
                scalar_destination is Some && next_cursor_destination is Some,
            );
            let success = context is Some && report is None;
            let bytes = raw_payload(string)->0;
            let tail = rest(bytes, cursor as int);
            &&& context matches Some(c) ==> final(c).wf() && final(c).reported(*c, report)
            &&& decoded == if success {
                1i8
            } else {
                0i8
            }
            &&& scalar_destination matches Some(d) ==> *final(d) == if success {
                decode_first_scalar(tail) as i32
            } else {
                *d
            }
            &&& next_cursor_destination matches Some(d) ==> *final(d) == if success {
                (cursor + length_of_first_scalar(tail)) as i32
            } else {
                *d
            }
        }),
{
    let context: &mut ExecutionContext = match context {
        None => {
            return 0;
        },
        Some(context) => context,
    };
    match (scalar_destination, next_cursor_destination) {
        (Some(scalar_destination), Some(next_cursor_destination)) => {
            let bytes: &[u8] = match raw_bytes(string) {
                None => {
                    context.fail_with("string foreach received an invalid string reference");
                    return 0;
                },
                Some(bytes) => bytes,
            };
            if cursor < 0 {
                context.fail_with("string foreach cursor is negative");
                return 0;
            }
            let (scalar, width): (u32, usize) = match decode_scalar_at(bytes, cursor as usize) {
                Err(text) => {
                    context.fail_with(text);
                    return 0;
                },
                Ok(decoded) => decoded,
            };
            if width > (0x7fff_ffff - cursor) as usize {
                context.fail_with("string foreach cursor overflow");
                return 0;
            }
            *scalar_destination = scalar as i32;
            *next_cursor_destination = cursor + width as i32;
            1
        },
        _ => {
            context.fail_with("string foreach received a null decode destination");
            0
        },
    }
}

/// What keeps two strings from being compared.
pub open spec fn pair_report(
    value: Option<&[u8]>,
    pattern: Option<&[u8]>,
    operation: Seq<char>,
) -> Option<Seq<char>> {
    if text_of(value) is None || text_of(pattern) is None {
        Some(reference_text(operation))
    } else {
        None
    }
}

/// Whether one string stands in another, compared character by character.
pub fn aster_rt_string_contains(
    context: Option<&mut ExecutionContext>,
    value: Option<&[u8]>,
    pattern: Option<&[u8]>,
) -> (result: i8)
    requires
        context matches Some(c) ==> c.wf(),
    ensures
        context matches Some(c) ==> final(c).wf() && final(c).reported(
            *c,
            pair_report(value, pattern, "Contains"@),
        ),
        ({
            let text = text_of(value)->0;
            let sought = text_of(pattern)->0;
            let known = context is Some && pair_report(value, pattern, "Contains"@) is None;
            result == if known && (occurs_in(text, sought)) {
                1i8
            } else {
                0i8
            }
        }),
{
    let context: &mut ExecutionContext = match context {
        None => {
            return 0;
        },
        Some(context) => context,
    };
    match (view_str(value), view_str(pattern)) {
        (Some(value), Some(pattern)) => {
            let text: Vec<u32> = scalars_of(value);
            let sought: Vec<u32> = scalars_of(pattern);
            let found: bool = find_from(text.as_slice(), sought.as_slice(), 0).is_some();
            proof {
                let a = chars_of(text@);
                let b = chars_of(sought@);
                lemma_first_from(a, b, 0);
                assert(found == (first_from(a, b, 0) != -1));
                if found {
                    assert(occurs_at(a, b, first_from(a, b, 0)));
                    assert(occurs_in(a, b));
                } else {
                    assert forall|i: int| !#[trigger] occurs_at(a, b, i) by {}
                    assert(!occurs_in(a, b));
                }
            }
            if found {
                1
            } else {
                0
            }
        },
        _ => {
            context.fail_string("Contains", " received an invalid UTF-8 string reference");
            0
        },
    }
}

/// Whether a string starts with another.
pub fn aster_rt_string_starts_with(
    context: Option<&mut ExecutionContext>,
    value: Option<&[u8]>,
    pattern: Option<&[u8]>,
) -> (result: i8)
    requires
        context matches Some(c) ==> c.wf(),
    ensures
        context matches Some(c) ==> final(c).wf() && final(c).reported(
            *c,
            pair_report(value, pattern, "StartsWith"@),
        ),
        ({
            let text = text_of(value)->0;
            let sought = text_of(pattern)->0;
            let known = context is Some && pair_report(value, pattern, "StartsWith"@) is None;
            result == if known && (occurs_at(text, sought, 0)) {
                1i8
            } else {
                0i8
            }
        }),
{
    let context: &mut ExecutionContext = match context {
        None => {
            return 0;
        },
        Some(context) => context,
    };
    match (view_str(value), view_str(pattern)) {
        (Some(value), Some(pattern)) => {
            let text: Vec<u32> = scalars_of(value);
            let sought: Vec<u32> = scalars_of(pattern);
            let found: bool = matches_at(text.as_slice(), sought.as_slice(), 0);
            if found {
                1
            } else {
                0
            }
        },
        _ => {
            context.fail_string("StartsWith", " received an invalid UTF-8 string reference");
            0
        },
    }
}

/// Whether a string ends with another.
pub fn aster_rt_string_ends_with(
    context: Option<&mut ExecutionContext>,
    value: Option<&[u8]>,
    pattern: Option<&[u8]>,
) -> (result: i8)
    requires
        context matches Some(c) ==> c.wf(),
    ensures
        context matches Some(c) ==> final(c).wf() && final(c).reported(
            *c,
            pair_report(value, pattern, "EndsWith"@),
        ),
        ({
            let text = text_of(value)->0;
            let sought = text_of(pattern)->0;
            let known = context is Some && pair_report(value, pattern, "EndsWith"@) is None;
            result == if known && (occurs_at(
                text,
                sought,
                text.len() - sought.len(),
            )) {
                1i8
            } else {
                0i8
            }
        }),
{
    let context: &mut ExecutionContext = match context {
        None => {
            return 0;
        },
        Some(context) => context,
    };
    match (view_str(value), view_str(pattern)) {
        (Some(value), Some(pattern)) => {
            let text: Vec<u32> = scalars_of(value);
            let sought: Vec<u32> = scalars_of(pattern);
            let found: bool = if text.len() < sought.len() {
                false
            } else {
                matches_at(text.as_slice(), sought.as_slice(), text.len() - sought.len())
            };
            if found {
                1
            } else {
                0
            }
        },
        _ => {
            context.fail_string("EndsWith", " received an invalid UTF-8 string reference");
            0
        },
    }
}

/// The index of the first occurrence of one string in another, in characters,
/// or -1.
pub fn aster_rt_string_index_of(
    context: Option<&mut ExecutionContext>,
    value: Option<&[u8]>,
    pattern: Option<&[u8]>,
) -> (index: i32)
    requires
        context matches Some(c) ==> c.wf(),
    ensures
        ({
            let text = text_of(value)->0;
            let sought = text_of(pattern)->0;
            let found = first_from(text, sought, 0);
            let report = if pair_report(value, pattern, "IndexOf"@) is Some {
                pair_report(value, pattern, "IndexOf"@)
            } else if found > i32::MAX {
                Some("String.IndexOf result exceeds the supported `int` range"@)
            } else {
                None
            };
            &&& context matches Some(c) ==> final(c).wf() && final(c).reported(*c, report)
            &&& index == if context is Some && report is None {
                found as i32
            } else {
                -1i32
            }
        }),
{
    let context: &mut ExecutionContext = match context {
        None => {
            return -1;
        },
        Some(context) => context,
    };
    match (view_str(value), view_str(pattern)) {
        (Some(value), Some(pattern)) => {
            let text: Vec<u32> = scalars_of(value);
            let sought: Vec<u32> = scalars_of(pattern);
            match find_from(text.as_slice(), sought.as_slice(), 0) {
                None => -1,
                Some(index) => if index > 0x7fff_ffff {
                    context.fail_with("String.IndexOf result exceeds the supported `int` range");
                    -1
                } else {
                    index as i32
                },
            }
        },
        _ => {
            context.fail_string("IndexOf", " received an invalid UTF-8 string reference");
            -1
        },
    }
}

/// The index of the last occurrence of one string in another, in characters,
/// or -1. Occurrences may overlap. The empty string is found after the last
/// character.
pub fn aster_rt_string_last_index_of(
    context: Option<&mut ExecutionContext>,
    value: Option<&[u8]>,
    pattern: Option<&[u8]>,
) -> (index: i32)
    requires
        context matches Some(c) ==> c.wf(),
    ensures
        ({
            let text = text_of(value)->0;
            let sought = text_of(pattern)->0;
            let found = last_up_to(text, sought, text.len() - sought.len());
            let report = if pair_report(value, pattern, "LastIndexOf"@) is Some {
                pair_report(value, pattern, "LastIndexOf"@)
            } else if found > i32::MAX {
                Some("String.LastIndexOf result exceeds the supported `int` range"@)
            } else {
                None
            };
            &&& context matches Some(c) ==> final(c).wf() && final(c).reported(*c, report)
            &&& index == if context is Some && report is None {
                found as i32
            } else {
                -1i32
            }
        }),
{
    let context: &mut ExecutionContext = match context {
        None => {
            return -1;
        },
        Some(context) => context,
    };
    match (view_str(value), view_str(pattern)) {
        (Some(value), Some(pattern)) => {
            let text: Vec<u32> = scalars_of(value);
            let sought: Vec<u32> = scalars_of(pattern);
            match find_last(text.as_slice(), sought.as_slice()) {
                None => -1,
                Some(index) => if index > 0x7fff_ffff {
                    context.fail_with("String.LastIndexOf result exceeds the supported `int` range");
                    -1
                } else {
                    index as i32
                },
            }
        },
        _ => {
            context.fail_string("LastIndexOf", " received an invalid UTF-8 string reference");
            -1
        },
    }
}

/// The cursor after `n` steps through a text.
pub open spec fn cursor_after(bytes: Seq<u8>, n: int) -> int
    decreases n,
{
    if n <= 0 {
        0
    } else {
        let cursor = cursor_after(bytes, n - 1);
        cursor + length_of_first_scalar(rest(bytes, cursor))
    }
}

/// Stepping through a text yields its characters one by one, in order, and ends
/// where the text ends.
pub proof fn law_stepping_yields_the_characters(string: Option<&[u8]>, n: int)
    requires
        text_payload(string) is Some,
        text_payload(string)->0.len() <= i32::MAX,
        0 <= n <= text_of(string)->0.len(),
    ensures
        ({
            let bytes = text_payload(string)->0;
            let cursor = cursor_after(bytes, n);
            &&& 0 <= cursor <= bytes.len()
            &&& decode_utf8(rest(bytes, cursor)) == text_of(string)->0.skip(n)
            &&& n == text_of(string)->0.len() <==> cursor == bytes.len()
            &&& n < text_of(string)->0.len() ==> {
                &&& decode_next_report(string, cursor as i32, true) is None
                &&& decode_first_scalar(rest(bytes, cursor)) as char == text_of(string)->0[n]
            }
        }),
    decreases n,
{
    let bytes = text_payload(string)->0;
    let text = text_of(string)->0;
    let cursor = cursor_after(bytes, n);
    lemma_cursor(bytes, n);
    let tail = rest(bytes, cursor);
    assert(decode_utf8(tail) == text.skip(n));
    assert(tail.len() == bytes.len() - cursor);
    assert(decode_utf8(tail).len() == text.len() - n);
    assert(tail.len() == 0 <==> decode_utf8(tail).len() == 0);
    if n < text.len() {
        assert(tail.len() > 0);
        assert(valid_first_scalar(tail));
        assert(tail[0] == bytes[cursor]);
        assert(length_of_first_scalar(tail) <= tail.len());
        assert(scalar_report(bytes, cursor) is None);
        assert(raw_payload(string) == Some(bytes));
        assert(decode_next_report(string, cursor as i32, true) is None);
        assert(decode_utf8(tail)[0] == decode_first_scalar(tail) as char);
        assert(text.skip(n)[0] == text[n]);
    }
}

proof fn lemma_cursor(bytes: Seq<u8>, n: int)
    requires
        valid_utf8(bytes),
        0 <= n <= decode_utf8(bytes).len(),
    ensures
        0 <= cursor_after(bytes, n) <= bytes.len(),
        valid_utf8(rest(bytes, cursor_after(bytes, n))),
        decode_utf8(rest(bytes, cursor_after(bytes, n))) == decode_utf8(bytes).skip(n),
    decreases n,
{
    if n == 0 {
        assert(rest(bytes, 0) =~= bytes);
        assert(decode_utf8(bytes).skip(0) =~= decode_utf8(bytes));
    } else {
        lemma_cursor(bytes, n - 1);
        let cursor = cursor_after(bytes, n - 1);
        let tail = rest(bytes, cursor);
        assert(tail.len() > 0);
        let next = cursor + length_of_first_scalar(tail);
        assert(pop_first_scalar(tail) =~= rest(bytes, next));
        assert(decode_utf8(tail).skip(1) =~= decode_utf8(rest(bytes, next)));
        assert(decode_utf8(bytes).skip(n - 1).skip(1) =~= decode_utf8(bytes).skip(n));
    }
}

} // verus!
