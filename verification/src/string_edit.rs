//! String operations that make other strings, and arrays of strings and
//! characters.

use vstd::bytes::{
    spec_u32_from_le_bytes, spec_u64_from_le_bytes, u32_from_le_bytes, u64_from_le_bytes,
};
use vstd::prelude::*;
use vstd::utf8::*;

use crate::array::AsterArray;
use crate::context::ExecutionContext;
use crate::memory::{bytes_at, has_range};
use crate::scalars::{
    all_scalars, chars_of, encode_range, end_of_text, joined_with, lemma_encode_concat,
    lemma_encode_one, lemma_same_char, scalars_of, split_bounds, split_parts, start_of_text,
    trimmed_end, trimmed_start,
};
use crate::string::{
    reference_text, text_of, text_payload, view_str,
};
use crate::string_store::string_at;
use crate::text::{decimal, push_decimal, push_signed_decimal, signed_decimal};
use crate::utf8::push_scalar;
use crate::words::{encode_words, encoded_words};

verus! {

/// The report about a range outside a string.
pub open spec fn bounds_text(
    start: i32,
    length: Option<i32>,
    current: nat,
    overflow: bool,
) -> Seq<char> {
    let first = "String.Substring start "@ + signed_decimal(start as int);
    let tail = if overflow && length is Some {
        " overflows for current length "@
    } else {
        " is outside current length "@
    };
    let middle = match length {
        Some(length) => ", length "@ + signed_decimal(length as int),
        None => ""@,
    };
    first + middle + tail + decimal(current)
}

/// What a substring operation makes.
pub open spec fn substring_made(value: Option<&[u8]>, start: i32, length: Option<i32>) -> Result<
    Seq<u8>,
    Seq<char>,
> {
    match text_of(value) {
        None => Err(reference_text("Substring"@)),
        Some(text) => {
            let n = text.len();
            match length {
                None => if start < 0 || start > n {
                    Err(bounds_text(start, None, n, false))
                } else {
                    Ok(encode_utf8(text.subrange(start as int, n as int)))
                },
                Some(count) => if start < 0 || count < 0 {
                    Err(bounds_text(start, length, n, false))
                } else if start + count > i32::MAX {
                    Err(bounds_text(start, length, n, true))
                } else if start + count > n {
                    Err(bounds_text(start, length, n, false))
                } else {
                    Ok(encode_utf8(text.subrange(start as int, start + count)))
                },
            }
        },
    }
}

impl ExecutionContext {
    /// Reports a range outside a string.
    fn substring_bounds_error(
        &mut self,
        start: i32,
        length: Option<i32>,
        current: usize,
        overflow: bool,
    )
        requires
            old(self).wf(),
        ensures
            final(self).wf(),
            final(self).only_failed(
                *old(self),
                bounds_text(start, length, current as nat, overflow),
            ),
    {
        let mut message: String = "String.Substring start ".to_owned();
        push_signed_decimal(&mut message, start as i64);
        match length {
            Some(length) => {
                message.append(", length ");
                push_signed_decimal(&mut message, length as i64);
                if overflow {
                    message.append(" overflows for current length ");
                } else {
                    message.append(" is outside current length ");
                }
            },
            None => {
                message.append("");
                message.append(" is outside current length ");
            },
        }
        push_decimal(&mut message, current as u64);
        proof {
            assert(message@ =~= bounds_text(start, length, current as nat, overflow));
        }
        self.fail(message);
    }
}

/// Does the work of the calls below.
fn string_substring(
    context: Option<&mut ExecutionContext>,
    value: Option<&[u8]>,
    start: i32,
    length: Option<i32>,
    temporary: bool,
) -> (result: Option<u64>)
    requires
        context matches Some(c) ==> c.wf(),
    ensures
        context is None ==> result is None,
        context matches Some(c) ==> {
            &&& final(c).wf()
            &&& c.scoped() ==> final(c).scoped()
            &&& final(c).text_outcome(*c, temporary, substring_made(value, start, length), result)
        },
{
    let context: &mut ExecutionContext = match context {
        None => {
            return None;
        },
        Some(context) => context,
    };
    let bytes: &[u8] = match view_str(value) {
        None => {
            context.fail_string("Substring", " received an invalid UTF-8 string reference");
            return None;
        },
        Some(bytes) => bytes,
    };
    let text: Vec<u32> = scalars_of(bytes);
    let current: usize = text.len();
    if start < 0 {
        context.substring_bounds_error(start, length, current, false);
        return None;
    }
    let end: usize = match length {
        None => {
            if start as usize > current {
                context.substring_bounds_error(start, None, current, false);
                return None;
            }
            current
        },
        Some(count) => {
            if count < 0 {
                context.substring_bounds_error(start, length, current, false);
                return None;
            }
            match start.checked_add(count) {
                None => {
                    context.substring_bounds_error(start, length, current, true);
                    return None;
                },
                Some(end) => {
                    if end as usize > current {
                        context.substring_bounds_error(start, length, current, false);
                        return None;
                    }
                    end as usize
                },
            }
        },
    };
    let part: Vec<u8> = encode_range(text.as_slice(), start as usize, end);
    context.allocate_text(part.as_slice(), temporary)
}

/// Copies the characters from `start` on.
pub fn aster_rt_string_substring_from(
    context: Option<&mut ExecutionContext>,
    value: Option<&[u8]>,
    start: i32,
) -> (result: Option<u64>)
    requires
        context matches Some(c) ==> c.wf(),
    ensures
        context is None ==> result is None,
        context matches Some(c) ==> {
            &&& final(c).wf()
            &&& c.scoped() ==> final(c).scoped()
            &&& final(c).text_outcome(*c, false, substring_made(value, start, None), result)
        },
{
    string_substring(context, value, start, None, false)
}

/// Copies the characters from `start` on. The result lives until its scope is
/// left.
pub fn aster_rt_string_substring_from_temporary(
    context: Option<&mut ExecutionContext>,
    value: Option<&[u8]>,
    start: i32,
) -> (result: Option<u64>)
    requires
        context matches Some(c) ==> c.wf(),
    ensures
        context is None ==> result is None,
        context matches Some(c) ==> {
            &&& final(c).wf()
            &&& c.scoped() ==> final(c).scoped()
            &&& final(c).text_outcome(*c, true, substring_made(value, start, None), result)
        },
{
    string_substring(context, value, start, None, true)
}

/// Copies `length` characters from `start` on.
pub fn aster_rt_string_substring_range(
    context: Option<&mut ExecutionContext>,
    value: Option<&[u8]>,
    start: i32,
    length: i32,
) -> (result: Option<u64>)
    requires
        context matches Some(c) ==> c.wf(),
    ensures
        context is None ==> result is None,
        context matches Some(c) ==> {
            &&& final(c).wf()
            &&& c.scoped() ==> final(c).scoped()
            &&& final(c).text_outcome(*c, false, substring_made(value, start, Some(length)), result)
        },
{
    string_substring(context, value, start, Some(length), false)
}

/// Copies `length` characters from `start` on. The result lives until its
/// scope is left.
pub fn aster_rt_string_substring_range_temporary(
    context: Option<&mut ExecutionContext>,
    value: Option<&[u8]>,
    start: i32,
    length: i32,
) -> (result: Option<u64>)
    requires
        context matches Some(c) ==> c.wf(),
    ensures
        context is None ==> result is None,
        context matches Some(c) ==> {
            &&& final(c).wf()
            &&& c.scoped() ==> final(c).scoped()
            &&& final(c).text_outcome(*c, true, substring_made(value, start, Some(length)), result)
        },
{
    string_substring(context, value, start, Some(length), true)
}

/// What a trim operation makes.
pub open spec fn trim_made(value: Option<&[u8]>, start: bool, end: bool) -> Result<
    Seq<u8>,
    Seq<char>,
> {
    match text_of(value) {
        None => Err(reference_text("Trim"@)),
        Some(text) => {
            let head = if end {
                trimmed_end(text)
            } else {
                text
            };
            Ok(
                encode_utf8(
                    if start {
                        trimmed_start(head)
                    } else {
                        head
                    },
                ),
            )
        },
    }
}

/// Does the work of the calls below.
fn string_trim_sides(
    context: Option<&mut ExecutionContext>,
    value: Option<&[u8]>,
    start: bool,
    end: bool,
    temporary: bool,
) -> (result: Option<u64>)
    requires
        context matches Some(c) ==> c.wf(),
    ensures
        context is None ==> result is None,
        context matches Some(c) ==> {
            &&& final(c).wf()
            &&& c.scoped() ==> final(c).scoped()
            &&& final(c).text_outcome(*c, temporary, trim_made(value, start, end), result)
        },
{
    let context: &mut ExecutionContext = match context {
        None => {
            return None;
        },
        Some(context) => context,
    };
    let bytes: &[u8] = match view_str(value) {
        None => {
            context.fail_string("Trim", " received an invalid UTF-8 string reference");
            return None;
        },
        Some(bytes) => bytes,
    };
    let text: Vec<u32> = scalars_of(bytes);
    let ghost chars = chars_of(text@);
    assert(chars.subrange(0, chars.len() as int) =~= chars);
    let to: usize = if end {
        end_of_text(text.as_slice(), 0)
    } else {
        text.len()
    };
    let from: usize = if start {
        start_of_text(text.as_slice(), to)
    } else {
        0
    };
    let part: Vec<u8> = encode_range(text.as_slice(), from, to);
    context.allocate_text(part.as_slice(), temporary)
}

/// Drops the white space at both ends. Which characters are white space is
/// fixed, and depends on no locale.
pub fn aster_rt_string_trim(
    context: Option<&mut ExecutionContext>,
    value: Option<&[u8]>,
) -> (result: Option<u64>)
    requires
        context matches Some(c) ==> c.wf(),
    ensures
        context is None ==> result is None,
        context matches Some(c) ==> {
            &&& final(c).wf()
            &&& c.scoped() ==> final(c).scoped()
            &&& final(c).text_outcome(*c, false, trim_made(value, true, true), result)
        },
{
    string_trim_sides(context, value, true, true, false)
}

/// Drops the white space at both ends. Which characters are white space is
/// fixed, and depends on no locale. The result lives until its scope is left.
pub fn aster_rt_string_trim_temporary(
    context: Option<&mut ExecutionContext>,
    value: Option<&[u8]>,
) -> (result: Option<u64>)
    requires
        context matches Some(c) ==> c.wf(),
    ensures
        context is None ==> result is None,
        context matches Some(c) ==> {
            &&& final(c).wf()
            &&& c.scoped() ==> final(c).scoped()
            &&& final(c).text_outcome(*c, true, trim_made(value, true, true), result)
        },
{
    string_trim_sides(context, value, true, true, true)
}

/// Drops the white space at the start.
pub fn aster_rt_string_trim_start(
    context: Option<&mut ExecutionContext>,
    value: Option<&[u8]>,
) -> (result: Option<u64>)
    requires
        context matches Some(c) ==> c.wf(),
    ensures
        context is None ==> result is None,
        context matches Some(c) ==> {
            &&& final(c).wf()
            &&& c.scoped() ==> final(c).scoped()
            &&& final(c).text_outcome(*c, false, trim_made(value, true, false), result)
        },
{
    string_trim_sides(context, value, true, false, false)
}

/// Drops the white space at the start. The result lives until its scope is
/// left.
pub fn aster_rt_string_trim_start_temporary(
    context: Option<&mut ExecutionContext>,
    value: Option<&[u8]>,
) -> (result: Option<u64>)
    requires
        context matches Some(c) ==> c.wf(),
    ensures
        context is None ==> result is None,
        context matches Some(c) ==> {
            &&& final(c).wf()
            &&& c.scoped() ==> final(c).scoped()
            &&& final(c).text_outcome(*c, true, trim_made(value, true, false), result)
        },
{
    string_trim_sides(context, value, true, false, true)
}

/// Drops the white space at the end.
pub fn aster_rt_string_trim_end(
    context: Option<&mut ExecutionContext>,
    value: Option<&[u8]>,
) -> (result: Option<u64>)
    requires
        context matches Some(c) ==> c.wf(),
    ensures
        context is None ==> result is None,
        context matches Some(c) ==> {
            &&& final(c).wf()
            &&& c.scoped() ==> final(c).scoped()
            &&& final(c).text_outcome(*c, false, trim_made(value, false, true), result)
        },
{
    string_trim_sides(context, value, false, true, false)
}

/// Drops the white space at the end. The result lives until its scope is
/// left.
pub fn aster_rt_string_trim_end_temporary(
    context: Option<&mut ExecutionContext>,
    value: Option<&[u8]>,
) -> (result: Option<u64>)
    requires
        context matches Some(c) ==> c.wf(),
    ensures
        context is None ==> result is None,
        context matches Some(c) ==> {
            &&& final(c).wf()
            &&& c.scoped() ==> final(c).scoped()
            &&& final(c).text_outcome(*c, true, trim_made(value, false, true), result)
        },
{
    string_trim_sides(context, value, false, true, true)
}

/// `pieces` with `separator` between every two of them.
pub open spec fn joined_bytes(pieces: Seq<Seq<u8>>, separator: Seq<u8>) -> Seq<u8>
    decreases pieces.len(),
{
    if pieces.len() == 0 {
        Seq::empty()
    } else if pieces.len() == 1 {
        pieces[0]
    } else {
        joined_bytes(pieces.drop_last(), separator) + separator + pieces.last()
    }
}

/// The contents of byte vectors.
pub open spec fn contents(pieces: Seq<Vec<u8>>) -> Seq<Seq<u8>> {
    Seq::new(pieces.len(), |i: int| pieces[i]@)
}

proof fn lemma_joined_grows(pieces: Seq<Seq<u8>>, separator: Seq<u8>, n: int)
    requires
        1 <= n <= pieces.len(),
    ensures
        joined_bytes(pieces.take(n), separator).len() <= joined_bytes(pieces, separator).len(),
    decreases pieces.len() - n,
{
    if n == pieces.len() {
        assert(pieces.take(n) =~= pieces);
    } else {
        assert(pieces.take(n + 1).drop_last() =~= pieces.take(n));
        lemma_joined_grows(pieces, separator, n + 1);
    }
}

/// Joins pieces, if the result fits a machine word.
fn join_pieces(pieces: &Vec<Vec<u8>>, separator: &[u8]) -> (result: Option<Vec<u8>>)
    ensures
        result is Some <==> joined_bytes(contents(pieces@), separator@).len() <= usize::MAX,
        result matches Some(bytes) ==> bytes@ == joined_bytes(contents(pieces@), separator@),
{
    let ghost all = contents(pieces@);
    let mut bytes: Vec<u8> = Vec::new();
    let mut i: usize = 0;
    assert(all.take(0) =~= Seq::<Seq<u8>>::empty());
    while i < pieces.len()
        invariant
            i <= pieces@.len(),
            all == contents(pieces@),
            bytes@ == joined_bytes(all.take(i as int), separator@),
        decreases pieces@.len() - i,
    {
        let gap: usize = if i == 0 {
            0
        } else {
            separator.len()
        };
        proof {
            assert(all.take(i + 1).drop_last() =~= all.take(i as int));
            assert(all.take(i + 1).last() == pieces@[i as int]@);
            lemma_joined_grows(all, separator@, i + 1);
            if i == 0 {
                assert(all.take(1).len() == 1);
            }
        }
        let room: usize = usize::MAX - bytes.len();
        if gap > room || pieces[i].len() > room - gap {
            return None;
        }
        let ghost before = bytes@;
        if i > 0 {
            bytes.extend_from_slice(separator);
            assert(bytes@ =~= before + separator@);
        }
        let ghost middle = bytes@;
        bytes.extend_from_slice(pieces[i].as_slice());
        proof {
            assert(bytes@ =~= middle + pieces@[i as int]@);
            if i == 0 {
                assert(bytes@ =~= pieces@[0]@);
            }
        }
        i = i + 1;
    }
    assert(all.take(i as int) =~= all);
    let total: usize = bytes.len();
    assert(bytes@.len() == total);
    Some(bytes)
}

impl AsterArray {
    /// Where element `i` lies.
    pub open spec fn slot(self, i: int) -> int {
        self.data + i * self.element_size
    }

    /// How many elements can be walked over.
    pub open spec fn count(self) -> int {
        if self.length < 0 {
            0
        } else {
            self.length as int
        }
    }

    /// The string that element `i` refers to.
    pub open spec fn string_in(self, m: Map<int, u8>, i: int) -> Option<Seq<u8>> {
        if has_range(m, self.slot(i), 8) {
            string_at(m, spec_u64_from_le_bytes(bytes_at(m, self.slot(i), 8)))
        } else {
            None
        }
    }

    /// The strings that the first `n` elements refer to, if all of them do.
    pub open spec fn strings_in(self, m: Map<int, u8>, n: int) -> Option<Seq<Seq<u8>>>
        decreases n,
    {
        if n <= 0 {
            Some(Seq::empty())
        } else {
            match (self.strings_in(m, n - 1), self.string_in(m, n - 1)) {
                (Some(before), Some(last)) => Some(before.push(last)),
                _ => None,
            }
        }
    }

    /// The scalar value in element `i`.
    pub open spec fn scalar_in(self, m: Map<int, u8>, i: int) -> Option<u32> {
        let value = spec_u32_from_le_bytes(bytes_at(m, self.slot(i), 4));
        if has_range(m, self.slot(i), 4) && is_scalar(value) {
            Some(value)
        } else {
            None
        }
    }

    /// The characters in the first `n` elements, if all of them hold one.
    pub open spec fn chars_in(self, m: Map<int, u8>, n: int) -> Option<Seq<char>>
        decreases n,
    {
        if n <= 0 {
            Some(Seq::empty())
        } else {
            match (self.chars_in(m, n - 1), self.scalar_in(m, n - 1)) {
                (Some(before), Some(last)) => Some(before.push(last as char)),
                _ => None,
            }
        }
    }
}

proof fn lemma_strings_missing(array: AsterArray, m: Map<int, u8>, i: int, n: int)
    requires
        0 <= i < n,
        array.string_in(m, i) is None,
    ensures
        array.strings_in(m, n) is None,
    decreases n,
{
    if n > i + 1 {
        lemma_strings_missing(array, m, i, n - 1);
    }
}

proof fn lemma_chars_missing(array: AsterArray, m: Map<int, u8>, i: int, n: int)
    requires
        0 <= i < n,
        array.scalar_in(m, i) is None,
    ensures
        array.chars_in(m, n) is None,
    decreases n,
{
    if n > i + 1 {
        lemma_chars_missing(array, m, i, n - 1);
    }
}

impl ExecutionContext {
    /// Reads `size` bytes of element `i` of an array.
    fn array_slot(&self, array: &AsterArray, i: i32, size: usize) -> (bytes: Option<Vec<u8>>)
        requires
            self.wf(),
            i >= 0,
            size > 0,
        ensures
            bytes is Some <==> has_range(self.mem(), array.slot(i as int), size as int),
            bytes matches Some(b) ==> b@ == bytes_at(
                self.mem(),
                array.slot(i as int),
                size as nat,
            ),
    {
        let count: u64 = i as u64;
        let step: u64 = array.element_size as u64;
        assert(count * step == i * array.element_size);
        assert(count * step <= 0x7fff_ffff * 0xffff_ffff) by (nonlinear_arith)
            requires
                count <= 0x7fff_ffff,
                step <= 0xffff_ffff,
        ;
        let offset: u64 = count * step;
        if offset > u64::MAX - array.data {
            proof {
                self.lemma_memory_below_end();
                if has_range(self.mem(), array.slot(i as int), size as int) {
                    assert(self.mem().contains_key(array.slot(i as int)));
                }
            }
            return None;
        }
        self.read_memory(array.data + offset, size)
    }

    /// The strings that the elements of an array refer to.
    fn array_strings(&self, array: &AsterArray) -> (result: Option<Vec<Vec<u8>>>)
        requires
            self.wf(),
        ensures
            result is Some <==> array.strings_in(self.mem(), array.count()) is Some,
            result matches Some(pieces) ==> array.strings_in(self.mem(), array.count()) == Some(
                contents(pieces@),
            ),
    {
        let ghost m = self.mem();
        let mut pieces: Vec<Vec<u8>> = Vec::new();
        let mut i: i32 = 0;
        assert(contents(pieces@) =~= Seq::<Seq<u8>>::empty());
        while i < array.length
            invariant
                self.wf(),
                m == self.mem(),
                0 <= i <= array.count(),
                array.strings_in(m, i as int) == Some(contents(pieces@)),
            decreases array.count() - i,
        {
            let item: Option<Vec<u8>> = match self.array_slot(array, i, 8) {
                None => None,
                Some(slot) => self.read_string(u64_from_le_bytes(slot.as_slice())),
            };
            match item {
                None => {
                    proof {
                        lemma_strings_missing(*array, m, i as int, array.count());
                    }
                    return None;
                },
                Some(item) => {
                    let ghost before = pieces@;
                    pieces.push(item);
                    assert(contents(pieces@) =~= contents(before).push(item@));
                },
            }
            i = i + 1;
        }
        Some(pieces)
    }

    /// The characters in the elements of an array.
    fn array_chars(&self, array: &AsterArray) -> (result: Option<Vec<u32>>)
        requires
            self.wf(),
        ensures
            result is Some <==> array.chars_in(self.mem(), array.count()) is Some,
            result matches Some(scalars) ==> all_scalars(scalars@) && array.chars_in(
                self.mem(),
                array.count(),
            ) == Some(chars_of(scalars@)),
    {
        let ghost m = self.mem();
        let mut scalars: Vec<u32> = Vec::new();
        let mut i: i32 = 0;
        assert(chars_of(scalars@) =~= Seq::<char>::empty());
        while i < array.length
            invariant
                self.wf(),
                m == self.mem(),
                0 <= i <= array.count(),
                all_scalars(scalars@),
                array.chars_in(m, i as int) == Some(chars_of(scalars@)),
            decreases array.count() - i,
        {
            let value: Option<u32> = match self.array_slot(array, i, 4) {
                None => None,
                Some(slot) => {
                    let value: u32 = u32_from_le_bytes(slot.as_slice());
                    if value <= 0xd7ff || (0xe000 <= value && value <= 0x10ffff) {
                        Some(value)
                    } else {
                        None
                    }
                },
            };
            match value {
                None => {
                    proof {
                        lemma_chars_missing(*array, m, i as int, array.count());
                    }
                    return None;
                },
                Some(value) => {
                    let ghost before = scalars@;
                    scalars.push(value);
                    assert(chars_of(scalars@) =~= chars_of(before).push(value as char));
                },
            }
            i = i + 1;
        }
        Some(scalars)
    }
}

/// What joining the strings of an array makes.
pub open spec fn join_array_made(
    m: Map<int, u8>,
    separator: Option<Seq<u8>>,
    values: Option<&AsterArray>,
) -> Result<Seq<u8>, Seq<char>> {
    let items = match values {
        None => Some(Seq::empty()),
        Some(array) => array.strings_in(m, array.count()),
    };
    match (separator, items) {
        (None, _) => Err("String.Join received an invalid separator"@),
        (Some(_), None) => Err("String.Join received an invalid string element"@),
        (Some(gap), Some(pieces)) => if joined_bytes(pieces, gap).len() > usize::MAX {
            Err("String.Join result exceeds the addressable range"@)
        } else {
            Ok(joined_bytes(pieces, gap))
        },
    }
}

impl ExecutionContext {
    /// What joining the strings of an array makes of the context `before`. After
    /// an earlier error nothing is joined.
    pub open spec fn join_array_outcome(
        &self,
        before: Self,
        temporary: bool,
        separator: Option<Seq<u8>>,
        values: Option<&AsterArray>,
        result: Option<u64>,
    ) -> bool {
        if separator is Some && before.error_text() is Some {
            result is None && *self == before
        } else {
            self.text_outcome(
                before,
                temporary,
                join_array_made(before.mem(), separator, values),
                result,
            )
        }
    }
}

/// Does the work of the calls below.
fn string_join_array(
    context: Option<&mut ExecutionContext>,
    separator: Option<&[u8]>,
    values: Option<&AsterArray>,
    temporary: bool,
) -> (result: Option<u64>)
    requires
        context matches Some(c) ==> c.wf(),
    ensures
        context is None ==> result is None,
        context matches Some(c) ==> {
            &&& final(c).wf()
            &&& c.scoped() ==> final(c).scoped()
            &&& final(c).join_array_outcome(
                *c,
                temporary,
                match separator {
                    Some(bytes) => Some(bytes@),
                    None => None,
                },
                values,
                result,
            )
        },
{
    let context: &mut ExecutionContext = match context {
        None => {
            return None;
        },
        Some(context) => context,
    };
    let separator: &[u8] = match separator {
        None => {
            context.fail_with("String.Join received an invalid separator");
            return None;
        },
        Some(separator) => separator,
    };
    if context.has_error() {
        return None;
    }
    let pieces: Vec<Vec<u8>> = match values {
        None => Vec::new(),
        Some(array) => match context.array_strings(array) {
            None => {
                context.fail_with("String.Join received an invalid string element");
                return None;
            },
            Some(pieces) => pieces,
        },
    };
    proof {
        if values is None {
            assert(contents(pieces@) =~= Seq::<Seq<u8>>::empty());
        }
    }
    match join_pieces(&pieces, separator) {
        None => {
            context.fail_with("String.Join result exceeds the addressable range");
            None
        },
        Some(bytes) => context.allocate_text(bytes.as_slice(), temporary),
    }
}

/// Joins the strings of an array, with a separator between every two.
pub fn aster_rt_string_join_array(
    context: Option<&mut ExecutionContext>,
    separator: Option<&[u8]>,
    values: Option<&AsterArray>,
) -> (result: Option<u64>)
    requires
        context matches Some(c) ==> c.wf(),
    ensures
        context is None ==> result is None,
        context matches Some(c) ==> {
            &&& final(c).wf()
            &&& c.scoped() ==> final(c).scoped()
            &&& final(c).join_array_outcome(
                *c,
                false,
                text_payload(separator),
                values,
                result,
            )
        },
{
    string_join_array(context, view_str(separator), values, false)
}

/// Joins the strings of an array, with a separator between every two. The
/// result lives until its scope is left.
pub fn aster_rt_string_join_array_temporary(
    context: Option<&mut ExecutionContext>,
    separator: Option<&[u8]>,
    values: Option<&AsterArray>,
) -> (result: Option<u64>)
    requires
        context matches Some(c) ==> c.wf(),
    ensures
        context is None ==> result is None,
        context matches Some(c) ==> {
            &&& final(c).wf()
            &&& c.scoped() ==> final(c).scoped()
            &&& final(c).join_array_outcome(
                *c,
                true,
                text_payload(separator),
                values,
                result,
            )
        },
{
    string_join_array(context, view_str(separator), values, true)
}

/// Puts the strings of an array one behind the other.
pub fn aster_rt_string_concat_array(
    context: Option<&mut ExecutionContext>,
    values: Option<&AsterArray>,
) -> (result: Option<u64>)
    requires
        context matches Some(c) ==> c.wf(),
    ensures
        context is None ==> result is None,
        context matches Some(c) ==> {
            &&& final(c).wf()
            &&& c.scoped() ==> final(c).scoped()
            &&& final(c).join_array_outcome(
                *c,
                false,
                Some(Seq::<u8>::empty()),
                values,
                result,
            )
        },
{
    let nothing: Vec<u8> = Vec::new();
    string_join_array(context, Some(nothing.as_slice()), values, false)
}

/// Puts the strings of an array one behind the other. The result lives until
/// its scope is left.
pub fn aster_rt_string_concat_array_temporary(
    context: Option<&mut ExecutionContext>,
    values: Option<&AsterArray>,
) -> (result: Option<u64>)
    requires
        context matches Some(c) ==> c.wf(),
    ensures
        context is None ==> result is None,
        context matches Some(c) ==> {
            &&& final(c).wf()
            &&& c.scoped() ==> final(c).scoped()
            &&& final(c).join_array_outcome(
                *c,
                true,
                Some(Seq::<u8>::empty()),
                values,
                result,
            )
        },
{
    let nothing: Vec<u8> = Vec::new();
    string_join_array(context, Some(nothing.as_slice()), values, true)
}

/// `bytes`, `count` times.
pub open spec fn repeated(bytes: Seq<u8>, count: int) -> Seq<u8>
    decreases count,
{
    if count <= 0 {
        Seq::empty()
    } else {
        repeated(bytes, count - 1) + bytes
    }
}

proof fn lemma_repeated_len(bytes: Seq<u8>, count: int)
    requires
        0 <= count,
    ensures
        repeated(bytes, count).len() == bytes.len() * count,
    decreases count,
{
    if count > 0 {
        lemma_repeated_len(bytes, count - 1);
        assert(bytes.len() * count == bytes.len() * (count - 1) + bytes.len()) by (nonlinear_arith);
    } else {
        assert(bytes.len() * 0 == 0) by (nonlinear_arith);
    }
}

/// What repeating a string makes.
pub open spec fn repeat_made(value: Option<&[u8]>, count: i32) -> Result<Seq<u8>, Seq<char>> {
    match text_payload(value) {
        None => Err("String.Repeat received an invalid string"@),
        Some(bytes) => if count < 0 {
            Err("String.Repeat requires a nonnegative count"@)
        } else if bytes.len() * count > usize::MAX {
            Err("String.Repeat result exceeds the addressable range"@)
        } else {
            Ok(repeated(bytes, count as int))
        },
    }
}

/// Repeats bytes.
fn repeat_bytes(bytes: &[u8], count: usize) -> (result: Vec<u8>)
    ensures
        result@ == repeated(bytes@, count as int),
{
    let mut result: Vec<u8> = Vec::new();
    let mut i: usize = 0;
    while i < count
        invariant
            i <= count,
            result@ == repeated(bytes@, i as int),
        decreases count - i,
    {
        let ghost before = result@;
        result.extend_from_slice(bytes);
        assert(result@ =~= before + bytes@);
        i = i + 1;
    }
    result
}

/// Does the work of the calls below.
fn string_repeat(
    context: Option<&mut ExecutionContext>,
    value: Option<&[u8]>,
    count: i32,
    temporary: bool,
) -> (result: Option<u64>)
    requires
        context matches Some(c) ==> c.wf(),
    ensures
        context is None ==> result is None,
        context matches Some(c) ==> {
            &&& final(c).wf()
            &&& c.scoped() ==> final(c).scoped()
            &&& final(c).text_outcome(*c, temporary, repeat_made(value, count), result)
        },
{
    let context: &mut ExecutionContext = match context {
        None => {
            return None;
        },
        Some(context) => context,
    };
    let bytes: &[u8] = match view_str(value) {
        None => {
            context.fail_with("String.Repeat received an invalid string");
            return None;
        },
        Some(bytes) => bytes,
    };
    if count < 0 {
        context.fail_with("String.Repeat requires a nonnegative count");
        return None;
    }
    let count: usize = count as usize;
    if bytes.len().checked_mul(count).is_none() {
        context.fail_with("String.Repeat result exceeds the addressable range");
        return None;
    }
    let result: Vec<u8> = repeat_bytes(bytes, count);
    context.allocate_text(result.as_slice(), temporary)
}

/// Repeats a string.
pub fn aster_rt_string_repeat(
    context: Option<&mut ExecutionContext>,
    value: Option<&[u8]>,
    count: i32,
) -> (result: Option<u64>)
    requires
        context matches Some(c) ==> c.wf(),
    ensures
        context is None ==> result is None,
        context matches Some(c) ==> {
            &&& final(c).wf()
            &&& c.scoped() ==> final(c).scoped()
            &&& final(c).text_outcome(*c, false, repeat_made(value, count), result)
        },
{
    string_repeat(context, value, count, false)
}

/// Repeats a string. The result lives until its scope is left.
pub fn aster_rt_string_repeat_temporary(
    context: Option<&mut ExecutionContext>,
    value: Option<&[u8]>,
    count: i32,
) -> (result: Option<u64>)
    requires
        context matches Some(c) ==> c.wf(),
    ensures
        context is None ==> result is None,
        context matches Some(c) ==> {
            &&& final(c).wf()
            &&& c.scoped() ==> final(c).scoped()
            &&& final(c).text_outcome(*c, true, repeat_made(value, count), result)
        },
{
    string_repeat(context, value, count, true)
}

/// What keeps a string from becoming an array of its characters.
pub open spec fn to_chars_report(value: Option<&[u8]>) -> Option<Seq<char>> {
    match text_of(value) {
        None => Some("String.ToChars received an invalid string"@),
        Some(text) => if text.len() > i32::MAX {
            Some("String.ToChars exceeds the supported array length"@)
        } else {
            None
        },
    }
}

/// The scalar values of characters.
pub open spec fn codes_of(text: Seq<char>) -> Seq<u32> {
    Seq::new(text.len(), |i: int| text[i] as u32)
}

/// Does the work of the two calls below.
fn string_to_chars(
    context: Option<&mut ExecutionContext>,
    value: Option<&[u8]>,
    temporary: bool,
) -> (result: Option<AsterArray>)
    requires
        context matches Some(c) ==> c.wf(),
    ensures
        context is None ==> result is None,
        context matches Some(c) ==> {
            let text = text_of(value)->0;
            &&& final(c).wf()
            &&& c.scoped() ==> final(c).scoped()
            &&& to_chars_report(value) matches Some(report) ==> result is None && final(c).only_failed(*c, report)
            &&& to_chars_report(value) is None ==> {
                ||| 4 * text.len() > usize::MAX && result is None && final(c).only_failed(
                    *c,
                    "array allocation size exceeds the addressable range"@,
                )
                ||| 4 * text.len() <= usize::MAX && final(c).array_outcome(
                    *c,
                    temporary,
                    text.len() as i32,
                    4,
                    encoded_words(codes_of(text)),
                    result,
                )
            }
        },
{
    let context: &mut ExecutionContext = match context {
        None => {
            return None;
        },
        Some(context) => context,
    };
    let bytes: &[u8] = match view_str(value) {
        None => {
            context.fail_with("String.ToChars received an invalid string");
            return None;
        },
        Some(bytes) => bytes,
    };
    let scalars: Vec<u32> = scalars_of(bytes);
    let length: usize = scalars.len();
    if length > 0x7fff_ffff {
        context.fail_with("String.ToChars exceeds the supported array length");
        return None;
    }
    if length.checked_mul(4).is_none() {
        context.fail_with("array allocation size exceeds the addressable range");
        return None;
    }
    let content: Vec<u8> = encode_words(&scalars);
    proof {
        let text = decode_utf8(bytes@);
        assert forall|i: int| 0 <= i < text.len() implies #[trigger] codes_of(text)[i]
            == scalars@[i] by {
            assert(is_scalar(scalars@[i]));
            assert(text[i] == chars_of(scalars@)[i]);
            lemma_same_char(scalars@[i], scalars@[i]);
        }
        assert(codes_of(text) =~= scalars@);
    }
    context.allocate_filled_array(length as i32, 4, content.as_slice(), temporary)
}

/// Makes an array of the characters of a string.
pub fn aster_rt_string_to_chars(
    context: Option<&mut ExecutionContext>,
    value: Option<&[u8]>,
) -> (result: Option<AsterArray>)
    requires
        context matches Some(c) ==> c.wf(),
    ensures
        context is None ==> result is None,
        context matches Some(c) ==> {
            let text = text_of(value)->0;
            &&& final(c).wf()
            &&& c.scoped() ==> final(c).scoped()
            &&& to_chars_report(value) matches Some(report) ==> result is None && final(c).only_failed(*c, report)
            &&& to_chars_report(value) is None ==> {
                ||| 4 * text.len() > usize::MAX && result is None && final(c).only_failed(
                    *c,
                    "array allocation size exceeds the addressable range"@,
                )
                ||| 4 * text.len() <= usize::MAX && final(c).array_outcome(
                    *c,
                    false,
                    text.len() as i32,
                    4,
                    encoded_words(codes_of(text)),
                    result,
                )
            }
        },
{
    string_to_chars(context, value, false)
}

/// Makes an array of the characters of a string. The result lives until its
/// scope is left.
pub fn aster_rt_string_to_chars_temporary(
    context: Option<&mut ExecutionContext>,
    value: Option<&[u8]>,
) -> (result: Option<AsterArray>)
    requires
        context matches Some(c) ==> c.wf(),
    ensures
        context is None ==> result is None,
        context matches Some(c) ==> {
            let text = text_of(value)->0;
            &&& final(c).wf()
            &&& c.scoped() ==> final(c).scoped()
            &&& to_chars_report(value) matches Some(report) ==> result is None && final(c).only_failed(*c, report)
            &&& to_chars_report(value) is None ==> {
                ||| 4 * text.len() > usize::MAX && result is None && final(c).only_failed(
                    *c,
                    "array allocation size exceeds the addressable range"@,
                )
                ||| 4 * text.len() <= usize::MAX && final(c).array_outcome(
                    *c,
                    true,
                    text.len() as i32,
                    4,
                    encoded_words(codes_of(text)),
                    result,
                )
            }
        },
{
    string_to_chars(context, value, true)
}

/// What the characters of an array make.
pub open spec fn from_chars_made(m: Map<int, u8>, values: Option<&AsterArray>) -> Result<
    Seq<u8>,
    Seq<char>,
> {
    let chars = match values {
        None => Some(Seq::empty()),
        Some(array) => array.chars_in(m, array.count()),
    };
    match chars {
        None => Err("String.FromChars received an invalid Unicode scalar"@),
        Some(text) => if encode_utf8(text).len() > usize::MAX {
            Err("String.FromChars result exceeds the addressable range"@)
        } else {
            Ok(encode_utf8(text))
        },
    }
}

/// The encoding of a text, if it fits a machine word.
fn encode_checked(scalars: &Vec<u32>) -> (result: Option<Vec<u8>>)
    requires
        all_scalars(scalars@),
    ensures
        result is Some <==> encode_utf8(chars_of(scalars@)).len() <= usize::MAX,
        result matches Some(bytes) ==> bytes@ == encode_utf8(chars_of(scalars@)),
{
    let ghost chars = chars_of(scalars@);
    let mut bytes: Vec<u8> = Vec::new();
    let mut i: usize = 0;
    assert(chars.take(0) =~= Seq::<char>::empty());
    while i < scalars.len()
        invariant
            i <= scalars@.len(),
            all_scalars(scalars@),
            chars == chars_of(scalars@),
            bytes@ == encode_utf8(chars.take(i as int)),
        decreases scalars@.len() - i,
    {
        proof {
            assert(is_scalar(scalars@[i as int]));
            lemma_same_char(scalars@[i as int], scalars@[i as int]);
            let one = seq![chars[i as int]];
            assert(chars.take(i + 1) =~= chars.take(i as int) + one);
            assert(chars =~= chars.take(i + 1) + chars.skip(i + 1));
            lemma_encode_concat(chars.take(i as int), one);
            lemma_encode_concat(chars.take(i + 1), chars.skip(i + 1));
            lemma_encode_one(chars[i as int]);
        }
        let mut piece: Vec<u8> = Vec::new();
        push_scalar(&mut piece, scalars[i]);
        assert(piece@ =~= encode_scalar(scalars@[i as int]));
        if piece.len() > usize::MAX - bytes.len() {
            return None;
        }
        bytes.append(&mut piece);
        i = i + 1;
    }
    assert(chars.take(i as int) =~= chars);
    let total: usize = bytes.len();
    assert(bytes@.len() == total);
    Some(bytes)
}

/// Does the work of the two calls below.
fn string_from_chars(
    context: Option<&mut ExecutionContext>,
    values: Option<&AsterArray>,
    temporary: bool,
) -> (result: Option<u64>)
    requires
        context matches Some(c) ==> c.wf(),
    ensures
        context is None ==> result is None,
        context matches Some(c) ==> {
            &&& final(c).wf()
            &&& c.scoped() ==> final(c).scoped()
            &&& c.error_text() is Some ==> result is None && *final(c) == *c
            &&& c.error_text() is None ==> final(c).text_outcome(
                *c,
                temporary,
                from_chars_made(c.mem(), values),
                result,
            )
        },
{
    let context: &mut ExecutionContext = match context {
        None => {
            return None;
        },
        Some(context) => context,
    };
    if context.has_error() {
        return None;
    }
    let scalars: Vec<u32> = match values {
        None => Vec::new(),
        Some(array) => match context.array_chars(array) {
            None => {
                context.fail_with("String.FromChars received an invalid Unicode scalar");
                return None;
            },
            Some(scalars) => scalars,
        },
    };
    proof {
        if values is None {
            assert(chars_of(scalars@) =~= Seq::<char>::empty());
        }
    }
    match encode_checked(&scalars) {
        None => {
            context.fail_with("String.FromChars result exceeds the addressable range");
            None
        },
        Some(bytes) => context.allocate_text(bytes.as_slice(), temporary),
    }
}

/// Makes a string of the characters of an array.
pub fn aster_rt_string_from_chars(
    context: Option<&mut ExecutionContext>,
    values: Option<&AsterArray>,
) -> (result: Option<u64>)
    requires
        context matches Some(c) ==> c.wf(),
    ensures
        context is None ==> result is None,
        context matches Some(c) ==> {
            &&& final(c).wf()
            &&& c.scoped() ==> final(c).scoped()
            &&& c.error_text() is Some ==> result is None && *final(c) == *c
            &&& c.error_text() is None ==> final(c).text_outcome(
                *c,
                false,
                from_chars_made(c.mem(), values),
                result,
            )
        },
{
    string_from_chars(context, values, false)
}

/// Makes a string of the characters of an array. The result lives until its
/// scope is left.
pub fn aster_rt_string_from_chars_temporary(
    context: Option<&mut ExecutionContext>,
    values: Option<&AsterArray>,
) -> (result: Option<u64>)
    requires
        context matches Some(c) ==> c.wf(),
    ensures
        context is None ==> result is None,
        context matches Some(c) ==> {
            &&& final(c).wf()
            &&& c.scoped() ==> final(c).scoped()
            &&& c.error_text() is Some ==> result is None && *final(c) == *c
            &&& c.error_text() is None ==> final(c).text_outcome(
                *c,
                true,
                from_chars_made(c.mem(), values),
                result,
            )
        },
{
    string_from_chars(context, values, true)
}

/// What replacing text makes.
pub open spec fn replace_made(
    value: Option<&[u8]>,
    old_value: Option<&[u8]>,
    new_value: Option<&[u8]>,
) -> Result<Seq<u8>, Seq<char>> {
    match (text_of(value), text_of(old_value), text_of(new_value)) {
        (Some(text), Some(sought), Some(other)) => {
            let made = encode_utf8(joined_with(split_parts(text, sought), other));
            if sought.len() == 0 {
                Err("String.Replace requires a non-empty oldValue"@)
            } else if made.len() > usize::MAX {
                Err("String.Replace result exceeds the addressable range"@)
            } else {
                Ok(made)
            }
        },
        _ => Err(reference_text("Replace"@)),
    }
}

/// The encodings of texts.
pub open spec fn encodings(parts: Seq<Seq<char>>) -> Seq<Seq<u8>> {
    Seq::new(parts.len(), |i: int| encode_utf8(parts[i]))
}

/// Joining texts and encoding the result is joining their encodings.
pub proof fn lemma_encode_join(parts: Seq<Seq<char>>, separator: Seq<char>)
    ensures
        encode_utf8(joined_with(parts, separator)) == joined_bytes(
            encodings(parts),
            encode_utf8(separator),
        ),
    decreases parts.len(),
{
    if parts.len() > 1 {
        lemma_encode_join(parts.drop_last(), separator);
        assert(encodings(parts).drop_last() =~= encodings(parts.drop_last()));
        lemma_encode_concat(joined_with(parts.drop_last(), separator) + separator, parts.last());
        lemma_encode_concat(joined_with(parts.drop_last(), separator), separator);
    }
}

/// The encodings of the parts of a text.
pub(crate) fn encode_parts(text: &Vec<u32>, bounds: &Vec<(usize, usize)>) -> (pieces: Vec<Vec<u8>>)
    requires
        all_scalars(text@),
        forall|k: int|
            0 <= k < bounds@.len() ==> (#[trigger] bounds@[k]).0 <= bounds@[k].1 <= text@.len(),
    ensures
        pieces@.len() == bounds@.len(),
        forall|k: int|
            0 <= k < pieces@.len() ==> (#[trigger] pieces@[k])@ == encode_utf8(
                chars_of(text@).subrange(bounds@[k].0 as int, bounds@[k].1 as int),
            ),
{
    let mut pieces: Vec<Vec<u8>> = Vec::new();
    let mut i: usize = 0;
    while i < bounds.len()
        invariant
            i <= bounds@.len(),
            all_scalars(text@),
            forall|k: int|
                0 <= k < bounds@.len() ==> (#[trigger] bounds@[k]).0 <= bounds@[k].1
                    <= text@.len(),
            pieces@.len() == i,
            forall|k: int|
                0 <= k < pieces@.len() ==> (#[trigger] pieces@[k])@ == encode_utf8(
                    chars_of(text@).subrange(bounds@[k].0 as int, bounds@[k].1 as int),
                ),
        decreases bounds@.len() - i,
    {
        let (from, to): (usize, usize) = bounds[i];
        pieces.push(encode_range(text.as_slice(), from, to));
        i = i + 1;
    }
    pieces
}

/// Does the work of the calls below.
fn string_replace(
    context: Option<&mut ExecutionContext>,
    value: Option<&[u8]>,
    old_value: Option<&[u8]>,
    new_value: Option<&[u8]>,
    temporary: bool,
) -> (result: Option<u64>)
    requires
        context matches Some(c) ==> c.wf(),
    ensures
        context is None ==> result is None,
        context matches Some(c) ==> {
            &&& final(c).wf()
            &&& c.scoped() ==> final(c).scoped()
            &&& final(c).text_outcome(*c, temporary, replace_made(value, old_value, new_value), result)
        },
{
    let context: &mut ExecutionContext = match context {
        None => {
            return None;
        },
        Some(context) => context,
    };
    match (view_str(value), view_str(old_value), view_str(new_value)) {
        (Some(value), Some(old_value), Some(new_value)) => {
            let text: Vec<u32> = scalars_of(value);
            let sought: Vec<u32> = scalars_of(old_value);
            if sought.len() == 0 {
                context.fail_with("String.Replace requires a non-empty oldValue");
                return None;
            }
            let bounds: Vec<(usize, usize)> = split_bounds(text.as_slice(), sought.as_slice());
            let pieces: Vec<Vec<u8>> = encode_parts(&text, &bounds);
            proof {
                let parts = split_parts(chars_of(text@), chars_of(sought@));
                let other = decode_utf8(new_value@);
                lemma_encode_join(parts, other);
                decode_utf8_encode_utf8(new_value@);
                assert(contents(pieces@) =~= encodings(parts)) by {
                    assert forall|k: int| 0 <= k < parts.len() implies #[trigger] contents(
                        pieces@,
                    )[k] == encodings(parts)[k] by {
                        assert(bounds@[k].0 <= bounds@[k].1);
                        assert(pieces@[k]@ == encode_utf8(parts[k]));
                    }
                }
            }
            match join_pieces(&pieces, new_value) {
                None => {
                    context.fail_with("String.Replace result exceeds the addressable range");
                    None
                },
                Some(bytes) => context.allocate_text(bytes.as_slice(), temporary),
            }
        },
        _ => {
            context.fail_string("Replace", " received an invalid UTF-8 string reference");
            None
        },
    }
}

/// Replaces every occurrence of a text, from left to right, where occurrences
/// do not overlap.
pub fn aster_rt_string_replace(
    context: Option<&mut ExecutionContext>,
    value: Option<&[u8]>,
    old_value: Option<&[u8]>,
    new_value: Option<&[u8]>,
) -> (result: Option<u64>)
    requires
        context matches Some(c) ==> c.wf(),
    ensures
        context is None ==> result is None,
        context matches Some(c) ==> {
            &&& final(c).wf()
            &&& c.scoped() ==> final(c).scoped()
            &&& final(c).text_outcome(*c, false, replace_made(value, old_value, new_value), result)
        },
{
    string_replace(context, value, old_value, new_value, false)
}

/// Replaces every occurrence of a text, from left to right, where occurrences
/// do not overlap. The result lives until its scope is left.
pub fn aster_rt_string_replace_temporary(
    context: Option<&mut ExecutionContext>,
    value: Option<&[u8]>,
    old_value: Option<&[u8]>,
    new_value: Option<&[u8]>,
) -> (result: Option<u64>)
    requires
        context matches Some(c) ==> c.wf(),
    ensures
        context is None ==> result is None,
        context matches Some(c) ==> {
            &&& final(c).wf()
            &&& c.scoped() ==> final(c).scoped()
            &&& final(c).text_outcome(*c, true, replace_made(value, old_value, new_value), result)
        },
{
    string_replace(context, value, old_value, new_value, true)
}

} // verus!
