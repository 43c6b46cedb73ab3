//! Parsing of scalars out of strings.
//!
//! A parse never fails with an error: text that is no scalar of the wanted type
//! gives `None`. Errors are kept for arguments that generated code cannot pass.

use vstd::bytes::{
    lemma_auto_spec_u16_to_from_le_bytes, lemma_auto_spec_u32_to_from_le_bytes,
    lemma_auto_spec_u64_to_from_le_bytes, spec_u16_to_le_bytes, spec_u32_to_le_bytes,
    spec_u64_to_le_bytes, u16_to_le_bytes, u32_to_le_bytes, u64_to_le_bytes,
};
use vstd::prelude::*;
use vstd::slice::{slice_subrange, slice_to_vec};
use vstd::utf8::*;

use crate::context::ExecutionContext;
use crate::memory::{spliced, store_bytes, zeroed};
use crate::scalars::{
    chars_of, lemma_encode_concat, lemma_encode_one, lemma_same_char, scalars_of,
};
use crate::string::{text_payload, view_str};
use crate::text::{decimal, digit, signed_decimal};

verus! {

pub open spec fn is_digit(b: u8) -> bool {
    0x30 <= b <= 0x39
}

/// Every byte is a digit.
pub open spec fn all_digits(s: Seq<u8>) -> bool {
    forall|i: int| 0 <= i < s.len() ==> is_digit(#[trigger] s[i])
}

/// The number that digits stand for.
pub open spec fn digits_value(s: Seq<u8>) -> nat
    decreases s.len(),
{
    if s.len() == 0 {
        0
    } else {
        (10 * digits_value(s.drop_last()) + (s.last() - 0x30)) as nat
    }
}

/// The integer that text stands for: digits, behind a sign where there is one. A
/// minus sign is one only where negative numbers are wanted.
pub open spec fn integer_value(s: Seq<u8>, signed: bool) -> Option<int> {
    let plus = s.len() > 0 && s[0] == 0x2b;
    let minus = signed && s.len() > 0 && s[0] == 0x2d;
    let digits = if plus || minus {
        s.drop_first()
    } else {
        s
    };
    if digits.len() == 0 || !all_digits(digits) {
        None
    } else if minus {
        Some(-digits_value(digits))
    } else {
        Some(digits_value(digits) as int)
    }
}

/// The integer that text stands for, if it lies between two bounds.
pub open spec fn integer_within(s: Seq<u8>, signed: bool, low: int, high: int) -> Option<int> {
    match integer_value(s, signed) {
        Some(value) if low <= value <= high => Some(value),
        _ => None,
    }
}

/// The number that the digits from `from` on stand for, or nothing where it is
/// above the range of 64 bits or there is something else.
fn parse_digits(bytes: &[u8], from: usize) -> (result: Option<u64>)
    requires
        from <= bytes@.len(),
    ensures
        ({
            let digits = bytes@.subrange(from as int, bytes@.len() as int);
            &&& result is Some <==> {
                &&& digits.len() > 0
                &&& all_digits(digits)
                &&& digits_value(digits) <= u64::MAX
            }
            &&& result matches Some(value) ==> value == digits_value(digits)
        }),
{
    let ghost digits = bytes@.subrange(from as int, bytes@.len() as int);
    if from == bytes.len() {
        return None;
    }
    let mut value: u64 = 0;
    let mut fits: bool = true;
    let mut i: usize = from;
    assert(digits.take(0) =~= Seq::<u8>::empty());
    while i < bytes.len()
        invariant
            from <= i <= bytes@.len(),
            digits == bytes@.subrange(from as int, bytes@.len() as int),
            forall|k: int| 0 <= k < i - from ==> is_digit(#[trigger] digits[k]),
            fits ==> value == digits_value(digits.take(i - from)),
            !fits ==> digits_value(digits.take(i - from)) > u64::MAX,
        decreases bytes@.len() - i,
    {
        let b: u8 = bytes[i];
        assert(digits[i - from] == b);
        if b < 0x30 || b > 0x39 {
            assert(!is_digit(digits[i - from]));
            return None;
        }
        proof {
            assert(digits.take(i + 1 - from).drop_last() =~= digits.take(i - from));
        }
        let d: u64 = (b - 0x30) as u64;
        if fits {
            if value > 0x1999_9999_9999_9999 || (value == 0x1999_9999_9999_9999 && d > 5) {
                fits = false;
            } else {
                value = value * 10 + d;
            }
        }
        i = i + 1;
    }
    assert(digits.take(i - from) =~= digits);
    if fits {
        Some(value)
    } else {
        None
    }
}

/// The 64 bits that stand for an integer.
pub open spec fn bits_of(value: int) -> u64 {
    if value < 0 {
        (value + 0x1_0000_0000_0000_0000) as u64
    } else {
        value as u64
    }
}

/// The `n` bytes that stand for an integer: those of its low bits, as a number of that
/// width.
pub open spec fn integer_bytes(value: int, n: int) -> Seq<u8> {
    if n == 1 {
        seq![bits_of(value) as u8]
    } else if n == 2 {
        spec_u16_to_le_bytes(bits_of(value) as u16)
    } else if n == 4 {
        spec_u32_to_le_bytes(bits_of(value) as u32)
    } else {
        spec_u64_to_le_bytes(bits_of(value)).take(n)
    }
}

/// The bytes of the integer that text stands for, if it lies between two bounds.
pub open spec fn parsed_integer(s: Seq<u8>, signed: bool, low: int, high: int, n: int) -> Option<
    Seq<u8>,
> {
    match integer_within(s, signed, low, high) {
        Some(value) => Some(integer_bytes(value, n)),
        None => None,
    }
}

/// The bytes of the low bits of a number.
fn low_bytes(bits: u64, n: usize) -> (bytes: Vec<u8>)
    requires
        n <= 8,
    ensures
        forall|value: int| #[trigger]
            bits_of(value) == bits ==> bytes@ == integer_bytes(value, n as int),
        bytes@.len() == n,
{
    proof {
        lemma_auto_spec_u16_to_from_le_bytes();
        lemma_auto_spec_u32_to_from_le_bytes();
        lemma_auto_spec_u64_to_from_le_bytes();
    }
    if n == 1 {
        let bytes: Vec<u8> = vec![bits as u8];
        assert(bytes@ =~= seq![bits as u8]);
        bytes
    } else if n == 2 {
        u16_to_le_bytes(bits as u16)
    } else if n == 4 {
        u32_to_le_bytes(bits as u32)
    } else {
        let whole: Vec<u8> = u64_to_le_bytes(bits);
        let part: Vec<u8> = slice_to_vec(slice_subrange(whole.as_slice(), 0, n));
        assert(part@ =~= whole@.take(n as int));
        part
    }
}

/// Parses an integer of `n` bytes that lies between `-below` and `above`.
fn parse_integer(bytes: &[u8], signed: bool, below: u64, above: u64, n: usize) -> (result: Option<
    Vec<u8>,
>)
    requires
        n <= 8,
        below <= 0x8000_0000_0000_0000,
        !signed ==> below == 0,
    ensures
        result is Some <==> parsed_integer(bytes@, signed, -below, above as int, n as int) is Some,
        result matches Some(b) ==> parsed_integer(
            bytes@,
            signed,
            -below,
            above as int,
            n as int,
        ) == Some(b@),
        result matches Some(b) ==> b@.len() == n,
{
    let ghost s = bytes@;
    let plus: bool = bytes.len() > 0 && bytes[0] == 0x2b;
    let minus: bool = signed && bytes.len() > 0 && bytes[0] == 0x2d;
    let from: usize = if plus || minus {
        1
    } else {
        0
    };
    proof {
        lemma_auto_spec_u64_to_from_le_bytes();
        assert(s.subrange(0, s.len() as int) =~= s);
        if s.len() > 0 {
            assert(s.subrange(1, s.len() as int) =~= s.drop_first());
        }
    }
    match parse_digits(bytes, from) {
        None => None,
        Some(value) => {
            if minus {
                if value > below {
                    return None;
                }
            } else if value > above {
                return None;
            }
            let bits: u64 = if minus && value > 0 {
                0xffff_ffff_ffff_ffff - (value - 1)
            } else {
                value
            };
            Some(low_bytes(bits, n))
        },
    }
}

/// A letter of the alphabet as a small one.
pub open spec fn small_letter(b: u8) -> u8 {
    if 0x41 <= b <= 0x5a {
        (b + 0x20) as u8
    } else {
        b
    }
}

/// Two texts that differ in nothing but large and small letters.
pub open spec fn same_letters(s: Seq<u8>, word: Seq<u8>) -> bool {
    s.len() == word.len() && forall|i: int|
        0 <= i < s.len() ==> small_letter(#[trigger] s[i]) == word[i]
}

fn letters_match(bytes: &[u8], word: &[u8]) -> (matches: bool)
    ensures
        matches == same_letters(bytes@, word@),
{
    if bytes.len() != word.len() {
        return false;
    }
    let mut i: usize = 0;
    while i < bytes.len()
        invariant
            i <= bytes@.len(),
            bytes@.len() == word@.len(),
            forall|k: int| 0 <= k < i ==> small_letter(#[trigger] bytes@[k]) == word@[k],
        decreases bytes@.len() - i,
    {
        let b: u8 = bytes[i];
        let small: u8 = if 0x41 <= b && b <= 0x5a {
            b + 0x20
        } else {
            b
        };
        if small != word[i] {
            assert(small_letter(bytes@[i as int]) != word@[i as int]);
            return false;
        }
        i = i + 1;
    }
    true
}

/// The truth value that text names, in large or small letters.
pub open spec fn parsed_bool(s: Seq<u8>) -> Option<Seq<u8>> {
    if same_letters(s, seq![0x74u8, 0x72u8, 0x75u8, 0x65u8]) {
        Some(seq![1u8])
    } else if same_letters(s, seq![0x66u8, 0x61u8, 0x6cu8, 0x73u8, 0x65u8]) {
        Some(seq![0u8])
    } else {
        None
    }
}

fn parse_bool(bytes: &[u8]) -> (result: Option<Vec<u8>>)
    ensures
        result is Some <==> parsed_bool(bytes@) is Some,
        result matches Some(b) ==> parsed_bool(bytes@) == Some(b@),
{
    let yes: [u8; 4] = [0x74, 0x72, 0x75, 0x65];
    let no: [u8; 5] = [0x66, 0x61, 0x6c, 0x73, 0x65];
    assert(yes@ =~= seq![0x74u8, 0x72u8, 0x75u8, 0x65u8]);
    assert(no@ =~= seq![0x66u8, 0x61u8, 0x6cu8, 0x73u8, 0x65u8]);
    if letters_match(bytes, &yes) {
        let result: Vec<u8> = vec![1u8];
        assert(result@ =~= seq![1u8]);
        Some(result)
    } else if letters_match(bytes, &no) {
        let result: Vec<u8> = vec![0u8];
        assert(result@ =~= seq![0u8]);
        Some(result)
    } else {
        None
    }
}

/// The one character of a text.
pub open spec fn parsed_char(s: Seq<u8>) -> Option<Seq<u8>> {
    if decode_utf8(s).len() == 1 {
        Some(spec_u32_to_le_bytes(decode_utf8(s)[0] as u32))
    } else {
        None
    }
}

fn parse_char(bytes: &[u8]) -> (result: Option<Vec<u8>>)
    requires
        valid_utf8(bytes@),
    ensures
        result is Some <==> parsed_char(bytes@) is Some,
        result matches Some(b) ==> parsed_char(bytes@) == Some(b@),
{
    let scalars: Vec<u32> = scalars_of(bytes);
    if scalars.len() == 1 {
        proof {
            assert(is_scalar(scalars@[0]));
            assert(decode_utf8(bytes@)[0] == chars_of(scalars@)[0]);
            lemma_same_char(scalars@[0], scalars@[0]);
        }
        Some(u32_to_le_bytes(scalars[0]))
    } else {
        None
    }
}

/// The place behind the digits that start at `i`.
spec fn after_digits(s: Seq<u8>, i: int) -> int
    decreases s.len() - i,
{
    if 0 <= i < s.len() && is_digit(s[i]) {
        after_digits(s, i + 1)
    } else {
        i
    }
}

/// The place behind the sign at `i`, if there is one.
spec fn after_sign(s: Seq<u8>, i: int) -> int {
    if 0 <= i < s.len() && (s[i] == 0x2b || s[i] == 0x2d) {
        i + 1
    } else {
        i
    }
}

/// Whether there are digits, and nothing else, from `i` up to `j`.
pub open spec fn are_digits(s: Seq<u8>, i: int, j: int) -> bool {
    &&& i <= j
    &&& forall|k: int| i <= k < j ==> is_digit(#[trigger] s[k])
}

/// Whether there is a sign, or nothing, from `i` up to `j`.
pub open spec fn is_sign(s: Seq<u8>, i: int, j: int) -> bool {
    j == i || j == i + 1 && (s[i] == 0x2b || s[i] == 0x2d)
}

/// Whether there are digits from `i` up to `j`, with a point at `point` among,
/// before or behind them, or with none.
pub open spec fn is_significand(s: Seq<u8>, i: int, point: int, j: int) -> bool {
    &&& are_digits(s, i, point)
    &&& if point == j {
        i < point
    } else {
        &&& s[point] == 0x2e
        &&& are_digits(s, point + 1, j)
        &&& i < point || point + 1 < j
    }
}

/// Whether there is an exponent from `i` up to `j`, with its digits from `first`
/// on, or nothing.
pub open spec fn is_exponent(s: Seq<u8>, i: int, first: int, j: int) -> bool {
    i == j || {
        &&& i < first < j
        &&& s[i] == 0x65 || s[i] == 0x45
        &&& is_sign(s, i + 1, first)
        &&& are_digits(s, first, j)
    }
}

/// Whether text is a decimal number: a sign, a significand and an exponent, where
/// the sign and the exponent may be missing.
pub open spec fn is_float_text(s: Seq<u8>) -> bool {
    exists|start: int, point: int, end: int, first: int|
        {
            &&& 0 <= start <= end <= s.len()
            &&& is_sign(s, 0, start)
            &&& #[trigger] is_significand(s, start, point, end)
            &&& #[trigger] is_exponent(s, end, first, s.len() as int)
        }
}

/// What a scan from left to right accepts.
spec fn is_scanned(s: Seq<u8>) -> bool {
    let n = s.len();
    let start = after_sign(s, 0);
    let whole = after_digits(s, start);
    let has_point = whole < n && s[whole] == 0x2e;
    let end = if has_point {
        after_digits(s, whole + 1)
    } else {
        whole
    };
    let has_digits = whole > start || end > whole + 1;
    let has_exponent = end < n && (s[end] == 0x65 || s[end] == 0x45);
    let exponent = after_sign(s, end + 1);
    let last = after_digits(s, exponent);
    has_digits && if has_exponent {
        last > exponent && last == n
    } else {
        end == n
    }
}

/// The digits that start at `i` reach as far as they can.
proof fn lemma_after_digits(s: Seq<u8>, i: int)
    requires
        0 <= i <= s.len(),
    ensures
        i <= after_digits(s, i) <= s.len(),
        are_digits(s, i, after_digits(s, i)),
        after_digits(s, i) < s.len() ==> !is_digit(s[after_digits(s, i)]),
    decreases s.len() - i,
{
    if i < s.len() && is_digit(s[i]) {
        lemma_after_digits(s, i + 1);
    }
}

/// There is only one place where digits end.
proof fn lemma_digits_end(s: Seq<u8>, i: int, j: int)
    requires
        0 <= i <= j <= s.len(),
        are_digits(s, i, j),
        j < s.len() ==> !is_digit(s[j]),
    ensures
        after_digits(s, i) == j,
{
    lemma_after_digits(s, i);
    let k = after_digits(s, i);
    if k < j {
        assert(is_digit(s[k]));
    } else if j < k {
        assert(is_digit(s[j]));
    }
}

/// The scan accepts exactly the decimal numbers.
proof fn lemma_scan(s: Seq<u8>)
    ensures
        is_scanned(s) == is_float_text(s),
{
    let n = s.len() as int;
    if is_scanned(s) {
        let start = after_sign(s, 0);
        lemma_after_digits(s, start);
        let whole = after_digits(s, start);
        let has_point = whole < n && s[whole] == 0x2e;
        if has_point {
            lemma_after_digits(s, whole + 1);
        }
        let end = if has_point {
            after_digits(s, whole + 1)
        } else {
            whole
        };
        let exponent = after_sign(s, end + 1);
        if end < n {
            lemma_after_digits(s, exponent);
        }
        assert(is_significand(s, start, whole, end));
        assert(is_exponent(s, end, exponent, n));
    }
    if is_float_text(s) {
        let (start, point, end, first) = choose|start: int, point: int, end: int, first: int|
            {
                &&& 0 <= start <= end <= s.len()
                &&& is_sign(s, 0, start)
                &&& #[trigger] is_significand(s, start, point, end)
                &&& #[trigger] is_exponent(s, end, first, s.len() as int)
            };
        assert(start < end);
        assert(point == end || point < end);
        assert(start < point ==> is_digit(s[start]));
        assert(after_sign(s, 0) == start);
        lemma_digits_end(s, start, point);
        if point < end {
            lemma_digits_end(s, point + 1, end);
        }
        if end < n {
            assert(is_digit(s[first]));
            assert(after_sign(s, end + 1) == first);
            lemma_digits_end(s, first, n);
        }
    }
}

fn skip_digits(bytes: &[u8], from: usize) -> (to: usize)
    requires
        from <= bytes@.len(),
    ensures
        to == after_digits(bytes@, from as int),
        from <= to <= bytes@.len(),
{
    let mut i: usize = from;
    while i < bytes.len() && bytes[i] >= 0x30 && bytes[i] <= 0x39
        invariant
            from <= i <= bytes@.len(),
            after_digits(bytes@, from as int) == after_digits(bytes@, i as int),
        decreases bytes@.len() - i,
    {
        i = i + 1;
    }
    i
}

fn skip_sign(bytes: &[u8], from: usize) -> (to: usize)
    requires
        from <= bytes@.len(),
    ensures
        to == after_sign(bytes@, from as int),
        from <= to <= bytes@.len(),
{
    if from < bytes.len() && (bytes[from] == 0x2b || bytes[from] == 0x2d) {
        from + 1
    } else {
        from
    }
}

/// Whether text is a decimal number. Names of numbers that are none, such as an
/// infinity, have no digit where one is needed, and so are none.
pub fn is_valid_float_grammar(bytes: &[u8]) -> (valid: bool)
    ensures
        valid == is_float_text(bytes@),
{
    proof {
        lemma_scan(bytes@);
    }
    let len: usize = bytes.len();
    let start: usize = skip_sign(bytes, 0);
    let whole: usize = skip_digits(bytes, start);
    let mut end: usize = whole;
    let mut has_digits: bool = whole > start;
    if whole < len && bytes[whole] == 0x2e {
        end = skip_digits(bytes, whole + 1);
        if end > whole + 1 {
            has_digits = true;
        }
    }
    if !has_digits {
        return false;
    }
    if end < len && (bytes[end] == 0x65 || bytes[end] == 0x45) {
        let exponent: usize = skip_sign(bytes, end + 1);
        let last: usize = skip_digits(bytes, exponent);
        return last > exponent && last == len;
    }
    end == len
}

/// The bits of a finite `float`.
pub open spec fn is_finite_float(bits: u32) -> bool {
    bits & 0x7f80_0000 != 0x7f80_0000
}

/// The bits of a finite `double`.
pub open spec fn is_finite_double(bits: u64) -> bool {
    bits & 0x7ff0_0000_0000_0000 != 0x7ff0_0000_0000_0000
}

/// The `float` that text stands for, where `rounded` are the bits of the nearest
/// one. A number beyond the range of finite ones is none.
pub open spec fn parsed_float(s: Seq<u8>, rounded: Option<u32>) -> Option<Seq<u8>> {
    match rounded {
        Some(bits) if is_float_text(s) && is_finite_float(bits) => Some(spec_u32_to_le_bytes(bits)),
        _ => None,
    }
}

/// The `double` that text stands for, where `rounded` are the bits of the
/// nearest one. A number beyond the range of finite ones is none.
pub open spec fn parsed_double(s: Seq<u8>, rounded: Option<u64>) -> Option<Seq<u8>> {
    match rounded {
        Some(bits) if is_float_text(s) && is_finite_double(bits) => Some(
            spec_u64_to_le_bytes(bits),
        ),
        _ => None,
    }
}

fn parse_float(bytes: &[u8], rounded: Option<u32>) -> (result: Option<Vec<u8>>)
    ensures
        result is Some <==> parsed_float(bytes@, rounded) is Some,
        result matches Some(b) ==> parsed_float(bytes@, rounded) == Some(b@),
{
    if !is_valid_float_grammar(bytes) {
        return None;
    }
    match rounded {
        Some(bits) => if bits & 0x7f80_0000 != 0x7f80_0000 {
            Some(u32_to_le_bytes(bits))
        } else {
            None
        },
        None => None,
    }
}

fn parse_double(bytes: &[u8], rounded: Option<u64>) -> (result: Option<Vec<u8>>)
    ensures
        result is Some <==> parsed_double(bytes@, rounded) is Some,
        result matches Some(b) ==> parsed_double(bytes@, rounded) == Some(b@),
{
    if !is_valid_float_grammar(bytes) {
        return None;
    }
    match rounded {
        Some(bits) => if bits & 0x7ff0_0000_0000_0000 != 0x7ff0_0000_0000_0000 {
            Some(u64_to_le_bytes(bits))
        } else {
            None
        },
        None => None,
    }
}

/// What keeps a parse from being made.
pub open spec fn parse_report(
    value: Option<&[u8]>,
    has_destination: bool,
    total_size: i32,
    payload_offset: i32,
    size: int,
    operation: Seq<char>,
) -> Option<Seq<char>> {
    if text_payload(value) is None {
        Some("String."@ + operation + " received an invalid UTF-8 string reference"@)
    } else if !has_destination {
        Some("String."@ + operation + " received a null destination"@)
    } else if total_size < 0 || payload_offset < 0 {
        Some("String."@ + operation + " received a malformed Option<T> layout"@)
    } else if payload_offset + size > usize::MAX {
        Some("String."@ + operation + " Option<T> payload layout overflow"@)
    } else if total_size < 4 || payload_offset + size > total_size {
        Some("String."@ + operation + " destination layout is too small for its payload"@)
    } else {
        None
    }
}

/// A destination after the result of a parse was written to it: zeroed, then the
/// tag, then the payload if there is one.
pub open spec fn option_result(
    target: Seq<u8>,
    total_size: int,
    payload_offset: int,
    parsed: Option<Seq<u8>>,
    some_tag: i32,
    none_tag: i32,
) -> Seq<u8> {
    let blank = spliced(target, 0, zeroed(total_size as nat));
    match parsed {
        Some(payload) => spliced(
            spliced(blank, 0, spec_u32_to_le_bytes(some_tag as u32)),
            payload_offset,
            payload,
        ),
        None => spliced(blank, 0, spec_u32_to_le_bytes(none_tag as u32)),
    }
}

/// Writes the whole representation of an option.
pub fn write_option_result(
    destination: &mut Vec<u8>,
    total_size: usize,
    payload_offset: usize,
    parsed: &Option<Vec<u8>>,
    some_tag: i32,
    none_tag: i32,
)
    requires
        4 <= total_size <= old(destination)@.len(),
        parsed matches Some(payload) ==> payload_offset + payload@.len() <= total_size,
    ensures
        final(destination)@ == option_result(
            old(destination)@,
            total_size as int,
            payload_offset as int,
            match parsed {
                Some(payload) => Some(payload@),
                None => None,
            },
            some_tag,
            none_tag,
        ),
{
    proof {
        lemma_auto_spec_u32_to_from_le_bytes();
    }
    let blank: Vec<u8> = vec![0u8; total_size];
    assert(blank@ =~= zeroed(total_size as nat));
    store_bytes(destination, 0, blank.as_slice());
    match parsed {
        Some(payload) => {
            let tag: Vec<u8> = u32_to_le_bytes(some_tag as u32);
            store_bytes(destination, 0, tag.as_slice());
            store_bytes(destination, payload_offset, payload.as_slice());
        },
        None => {
            let tag: Vec<u8> = u32_to_le_bytes(none_tag as u32);
            store_bytes(destination, 0, tag.as_slice());
        },
    }
}

impl ExecutionContext {
    /// The bytes to parse. What keeps a parse from being made is reported.
    fn parse_source<'a>(
        &mut self,
        value: Option<&'a [u8]>,
        has_destination: bool,
        total_size: i32,
        payload_offset: i32,
        size: usize,
        operation: &str,
    ) -> (bytes: Option<&'a [u8]>)
        requires
            old(self).wf(),
            size <= 8,
        ensures
            final(self).wf(),
            ({
                let report = parse_report(
                    value,
                    has_destination,
                    total_size,
                    payload_offset,
                    size as int,
                    operation@,
                );
                &&& final(self).reported(*old(self), report)
                &&& bytes is None <==> report is Some
                &&& bytes matches Some(b) ==> text_payload(value) == Some(b@) && valid_utf8(b@)
            }),
    {
        let bytes: &[u8] = match view_str(value) {
            None => {
                self.fail_string(operation, " received an invalid UTF-8 string reference");
                return None;
            },
            Some(bytes) => bytes,
        };
        if !has_destination {
            self.fail_string(operation, " received a null destination");
            return None;
        }
        if total_size < 0 || payload_offset < 0 {
            self.fail_string(operation, " received a malformed Option<T> layout");
            return None;
        }
        let payload_end: usize = match (payload_offset as usize).checked_add(size) {
            None => {
                self.fail_string(operation, " Option<T> payload layout overflow");
                return None;
            },
            Some(end) => end,
        };
        if total_size < 4 || payload_end > total_size as usize {
            self.fail_string(operation, " destination layout is too small for its payload");
            return None;
        }
        Some(bytes)
    }
}

/// Parses `true` or `false`, in large or small letters.
pub fn aster_rt_string_try_parse_bool(
    context: Option<&mut ExecutionContext>,
    value: Option<&[u8]>,
    destination: Option<&mut Vec<u8>>,
    total_size: i32,
    some_tag: i32,
    none_tag: i32,
    payload_offset: i32,
)
    requires
        context matches Some(c) ==> c.wf(),
        destination matches Some(d) ==> d@.len() >= total_size,
    ensures
        ({
            let report = parse_report(
                value,
                destination is Some,
                total_size,
                payload_offset,
                1,
                "TryParseBool"@,
            );
            let s = text_payload(value)->0;
            &&& context matches Some(c) ==> final(c).wf() && final(c).reported(*c, report)
            &&& destination matches Some(d) ==> final(d)@ == if context is Some && report
                is None {
                option_result(
                    d@,
                    total_size as int,
                    payload_offset as int,
                    parsed_bool(s),
                    some_tag,
                    none_tag,
                )
            } else {
                d@
            }
        }),
{
    let context: &mut ExecutionContext = match context {
        None => {
            return ;
        },
        Some(context) => context,
    };
    match context.parse_source(
        value,
        destination.is_some(),
        total_size,
        payload_offset,
        1,
        "TryParseBool",
    ) {
        None => {},
        Some(bytes) => {
            if let Some(target) = destination {
                proof {
                    lemma_auto_spec_u32_to_from_le_bytes();
                    lemma_auto_spec_u64_to_from_le_bytes();
                }
                let parsed: Option<Vec<u8>> = parse_bool(bytes);
                write_option_result(
                    target,
                    total_size as usize,
                    payload_offset as usize,
                    &parsed,
                    some_tag,
                    none_tag,
                );
            }
        },
    }
}

/// Parses a text of exactly one character.
pub fn aster_rt_string_try_parse_char(
    context: Option<&mut ExecutionContext>,
    value: Option<&[u8]>,
    destination: Option<&mut Vec<u8>>,
    total_size: i32,
    some_tag: i32,
    none_tag: i32,
    payload_offset: i32,
)
    requires
        context matches Some(c) ==> c.wf(),
        destination matches Some(d) ==> d@.len() >= total_size,
    ensures
        ({
            let report = parse_report(
                value,
                destination is Some,
                total_size,
                payload_offset,
                4,
                "TryParseChar"@,
            );
            let s = text_payload(value)->0;
            &&& context matches Some(c) ==> final(c).wf() && final(c).reported(*c, report)
            &&& destination matches Some(d) ==> final(d)@ == if context is Some && report
                is None {
                option_result(
                    d@,
                    total_size as int,
                    payload_offset as int,
                    parsed_char(s),
                    some_tag,
                    none_tag,
                )
            } else {
                d@
            }
        }),
{
    let context: &mut ExecutionContext = match context {
        None => {
            return ;
        },
        Some(context) => context,
    };
    match context.parse_source(
        value,
        destination.is_some(),
        total_size,
        payload_offset,
        4,
        "TryParseChar",
    ) {
        None => {},
        Some(bytes) => {
            if let Some(target) = destination {
                proof {
                    lemma_auto_spec_u32_to_from_le_bytes();
                    lemma_auto_spec_u64_to_from_le_bytes();
                }
                let parsed: Option<Vec<u8>> = parse_char(bytes);
                write_option_result(
                    target,
                    total_size as usize,
                    payload_offset as usize,
                    &parsed,
                    some_tag,
                    none_tag,
                );
            }
        },
    }
}

/// Parses a `sbyte`: the whole text is digits, behind a sign where there is one.
pub fn aster_rt_string_try_parse_sbyte(
    context: Option<&mut ExecutionContext>,
    value: Option<&[u8]>,
    destination: Option<&mut Vec<u8>>,
    total_size: i32,
    some_tag: i32,
    none_tag: i32,
    payload_offset: i32,
)
    requires
        context matches Some(c) ==> c.wf(),
        destination matches Some(d) ==> d@.len() >= total_size,
    ensures
        ({
            let report = parse_report(
                value,
                destination is Some,
                total_size,
                payload_offset,
                1,
                "TryParseSByte"@,
            );
            let s = text_payload(value)->0;
            &&& context matches Some(c) ==> final(c).wf() && final(c).reported(*c, report)
            &&& destination matches Some(d) ==> final(d)@ == if context is Some && report
                is None {
                option_result(
                    d@,
                    total_size as int,
                    payload_offset as int,
                    parsed_integer(s, true, i8::MIN as int, i8::MAX as int, 1),
                    some_tag,
                    none_tag,
                )
            } else {
                d@
            }
        }),
{
    let context: &mut ExecutionContext = match context {
        None => {
            return ;
        },
        Some(context) => context,
    };
    match context.parse_source(
        value,
        destination.is_some(),
        total_size,
        payload_offset,
        1,
        "TryParseSByte",
    ) {
        None => {},
        Some(bytes) => {
            if let Some(target) = destination {
                proof {
                    lemma_auto_spec_u32_to_from_le_bytes();
                    lemma_auto_spec_u64_to_from_le_bytes();
                }
                let parsed: Option<Vec<u8>> = parse_integer(bytes, true, 0x80, 0x7f, 1);
                write_option_result(
                    target,
                    total_size as usize,
                    payload_offset as usize,
                    &parsed,
                    some_tag,
                    none_tag,
                );
            }
        },
    }
}

/// Parses a `byte`: the whole text is digits, behind a plus sign where there is one.
pub fn aster_rt_string_try_parse_byte(
    context: Option<&mut ExecutionContext>,
    value: Option<&[u8]>,
    destination: Option<&mut Vec<u8>>,
    total_size: i32,
    some_tag: i32,
    none_tag: i32,
    payload_offset: i32,
)
    requires
        context matches Some(c) ==> c.wf(),
        destination matches Some(d) ==> d@.len() >= total_size,
    ensures
        ({
            let report = parse_report(
                value,
                destination is Some,
                total_size,
                payload_offset,
                1,
                "TryParseByte"@,
            );
            let s = text_payload(value)->0;
            &&& context matches Some(c) ==> final(c).wf() && final(c).reported(*c, report)
            &&& destination matches Some(d) ==> final(d)@ == if context is Some && report
                is None {
                option_result(
                    d@,
                    total_size as int,
                    payload_offset as int,
                    parsed_integer(s, false, u8::MIN as int, u8::MAX as int, 1),
                    some_tag,
                    none_tag,
                )
            } else {
                d@
            }
        }),
{
    let context: &mut ExecutionContext = match context {
        None => {
            return ;
        },
        Some(context) => context,
    };
    match context.parse_source(
        value,
        destination.is_some(),
        total_size,
        payload_offset,
        1,
        "TryParseByte",
    ) {
        None => {},
        Some(bytes) => {
            if let Some(target) = destination {
                proof {
                    lemma_auto_spec_u32_to_from_le_bytes();
                    lemma_auto_spec_u64_to_from_le_bytes();
                }
                let parsed: Option<Vec<u8>> = parse_integer(bytes, false, 0, 0xff, 1);
                write_option_result(
                    target,
                    total_size as usize,
                    payload_offset as usize,
                    &parsed,
                    some_tag,
                    none_tag,
                );
            }
        },
    }
}

/// Parses a `short`: the whole text is digits, behind a sign where there is one.
pub fn aster_rt_string_try_parse_short(
    context: Option<&mut ExecutionContext>,
    value: Option<&[u8]>,
    destination: Option<&mut Vec<u8>>,
    total_size: i32,
    some_tag: i32,
    none_tag: i32,
    payload_offset: i32,
)
    requires
        context matches Some(c) ==> c.wf(),
        destination matches Some(d) ==> d@.len() >= total_size,
    ensures
        ({
            let report = parse_report(
                value,
                destination is Some,
                total_size,
                payload_offset,
                2,
                "TryParseShort"@,
            );
            let s = text_payload(value)->0;
            &&& context matches Some(c) ==> final(c).wf() && final(c).reported(*c, report)
            &&& destination matches Some(d) ==> final(d)@ == if context is Some && report
                is None {
                option_result(
                    d@,
                    total_size as int,
                    payload_offset as int,
                    parsed_integer(s, true, i16::MIN as int, i16::MAX as int, 2),
                    some_tag,
                    none_tag,
                )
            } else {
                d@
            }
        }),
{
    let context: &mut ExecutionContext = match context {
        None => {
            return ;
        },
        Some(context) => context,
    };
    match context.parse_source(
        value,
        destination.is_some(),
        total_size,
        payload_offset,
        2,
        "TryParseShort",
    ) {
        None => {},
        Some(bytes) => {
            if let Some(target) = destination {
                proof {
                    lemma_auto_spec_u32_to_from_le_bytes();
                    lemma_auto_spec_u64_to_from_le_bytes();
                }
                let parsed: Option<Vec<u8>> = parse_integer(bytes, true, 0x8000, 0x7fff, 2);
                write_option_result(
                    target,
                    total_size as usize,
                    payload_offset as usize,
                    &parsed,
                    some_tag,
                    none_tag,
                );
            }
        },
    }
}

/// Parses a `ushort`: the whole text is digits, behind a plus sign where there is one.
pub fn aster_rt_string_try_parse_ushort(
    context: Option<&mut ExecutionContext>,
    value: Option<&[u8]>,
    destination: Option<&mut Vec<u8>>,
    total_size: i32,
    some_tag: i32,
    none_tag: i32,
    payload_offset: i32,
)
    requires
        context matches Some(c) ==> c.wf(),
        destination matches Some(d) ==> d@.len() >= total_size,
    ensures
        ({
            let report = parse_report(
                value,
                destination is Some,
                total_size,
                payload_offset,
                2,
                "TryParseUShort"@,
            );
            let s = text_payload(value)->0;
            &&& context matches Some(c) ==> final(c).wf() && final(c).reported(*c, report)
            &&& destination matches Some(d) ==> final(d)@ == if context is Some && report
                is None {
                option_result(
                    d@,
                    total_size as int,
                    payload_offset as int,
                    parsed_integer(s, false, u16::MIN as int, u16::MAX as int, 2),
                    some_tag,
                    none_tag,
                )
            } else {
                d@
            }
        }),
{
    let context: &mut ExecutionContext = match context {
        None => {
            return ;
        },
        Some(context) => context,
    };
    match context.parse_source(
        value,
        destination.is_some(),
        total_size,
        payload_offset,
        2,
        "TryParseUShort",
    ) {
        None => {},
        Some(bytes) => {
            if let Some(target) = destination {
                proof {
                    lemma_auto_spec_u32_to_from_le_bytes();
                    lemma_auto_spec_u64_to_from_le_bytes();
                }
                let parsed: Option<Vec<u8>> = parse_integer(bytes, false, 0, 0xffff, 2);
                write_option_result(
                    target,
                    total_size as usize,
                    payload_offset as usize,
                    &parsed,
                    some_tag,
                    none_tag,
                );
            }
        },
    }
}

/// Parses a `int`: the whole text is digits, behind a sign where there is one.
pub fn aster_rt_string_try_parse_int(
    context: Option<&mut ExecutionContext>,
    value: Option<&[u8]>,
    destination: Option<&mut Vec<u8>>,
    total_size: i32,
    some_tag: i32,
    none_tag: i32,
    payload_offset: i32,
)
    requires
        context matches Some(c) ==> c.wf(),
        destination matches Some(d) ==> d@.len() >= total_size,
    ensures
        ({
            let report = parse_report(
                value,
                destination is Some,
                total_size,
                payload_offset,
                4,
                "TryParseInt"@,
            );
            let s = text_payload(value)->0;
            &&& context matches Some(c) ==> final(c).wf() && final(c).reported(*c, report)
            &&& destination matches Some(d) ==> final(d)@ == if context is Some && report
                is None {
                option_result(
                    d@,
                    total_size as int,
                    payload_offset as int,
                    parsed_integer(s, true, i32::MIN as int, i32::MAX as int, 4),
                    some_tag,
                    none_tag,
                )
            } else {
                d@
            }
        }),
{
    let context: &mut ExecutionContext = match context {
        None => {
            return ;
        },
        Some(context) => context,
    };
    match context.parse_source(
        value,
        destination.is_some(),
        total_size,
        payload_offset,
        4,
        "TryParseInt",
    ) {
        None => {},
        Some(bytes) => {
            if let Some(target) = destination {
                proof {
                    lemma_auto_spec_u32_to_from_le_bytes();
                    lemma_auto_spec_u64_to_from_le_bytes();
                }
                let parsed: Option<Vec<u8>> = parse_integer(bytes, true, 0x8000_0000, 0x7fff_ffff, 4);
                write_option_result(
                    target,
                    total_size as usize,
                    payload_offset as usize,
                    &parsed,
                    some_tag,
                    none_tag,
                );
            }
        },
    }
}

/// Parses a `uint`: the whole text is digits, behind a plus sign where there is one.
pub fn aster_rt_string_try_parse_uint(
    context: Option<&mut ExecutionContext>,
    value: Option<&[u8]>,
    destination: Option<&mut Vec<u8>>,
    total_size: i32,
    some_tag: i32,
    none_tag: i32,
    payload_offset: i32,
)
    requires
        context matches Some(c) ==> c.wf(),
        destination matches Some(d) ==> d@.len() >= total_size,
    ensures
        ({
            let report = parse_report(
                value,
                destination is Some,
                total_size,
                payload_offset,
                4,
                "TryParseUInt"@,
            );
            let s = text_payload(value)->0;
            &&& context matches Some(c) ==> final(c).wf() && final(c).reported(*c, report)
            &&& destination matches Some(d) ==> final(d)@ == if context is Some && report
                is None {
                option_result(
                    d@,
                    total_size as int,
                    payload_offset as int,
                    parsed_integer(s, false, u32::MIN as int, u32::MAX as int, 4),
                    some_tag,
                    none_tag,
                )
            } else {
                d@
            }
        }),
{
    let context: &mut ExecutionContext = match context {
        None => {
            return ;
        },
        Some(context) => context,
    };
    match context.parse_source(
        value,
        destination.is_some(),
        total_size,
        payload_offset,
        4,
        "TryParseUInt",
    ) {
        None => {},
        Some(bytes) => {
            if let Some(target) = destination {
                proof {
                    lemma_auto_spec_u32_to_from_le_bytes();
                    lemma_auto_spec_u64_to_from_le_bytes();
                }
                let parsed: Option<Vec<u8>> = parse_integer(bytes, false, 0, 0xffff_ffff, 4);
                write_option_result(
                    target,
                    total_size as usize,
                    payload_offset as usize,
                    &parsed,
                    some_tag,
                    none_tag,
                );
            }
        },
    }
}

/// Parses a `long`: the whole text is digits, behind a sign where there is one.
pub fn aster_rt_string_try_parse_long(
    context: Option<&mut ExecutionContext>,
    value: Option<&[u8]>,
    destination: Option<&mut Vec<u8>>,
    total_size: i32,
    some_tag: i32,
    none_tag: i32,
    payload_offset: i32,
)
    requires
        context matches Some(c) ==> c.wf(),
        destination matches Some(d) ==> d@.len() >= total_size,
    ensures
        ({
            let report = parse_report(
                value,
                destination is Some,
                total_size,
                payload_offset,
                8,
                "TryParseLong"@,
            );
            let s = text_payload(value)->0;
            &&& context matches Some(c) ==> final(c).wf() && final(c).reported(*c, report)
            &&& destination matches Some(d) ==> final(d)@ == if context is Some && report
                is None {
                option_result(
                    d@,
                    total_size as int,
                    payload_offset as int,
                    parsed_integer(s, true, i64::MIN as int, i64::MAX as int, 8),
                    some_tag,
                    none_tag,
                )
            } else {
                d@
            }
        }),
{
    let context: &mut ExecutionContext = match context {
        None => {
            return ;
        },
        Some(context) => context,
    };
    match context.parse_source(
        value,
        destination.is_some(),
        total_size,
        payload_offset,
        8,
        "TryParseLong",
    ) {
        None => {},
        Some(bytes) => {
            if let Some(target) = destination {
                proof {
                    lemma_auto_spec_u32_to_from_le_bytes();
                    lemma_auto_spec_u64_to_from_le_bytes();
                }
                let parsed: Option<Vec<u8>> = parse_integer(bytes, true, 0x8000_0000_0000_0000, 0x7fff_ffff_ffff_ffff, 8);
                write_option_result(
                    target,
                    total_size as usize,
                    payload_offset as usize,
                    &parsed,
                    some_tag,
                    none_tag,
                );
            }
        },
    }
}

/// Parses a `ulong`: the whole text is digits, behind a plus sign where there is one.
pub fn aster_rt_string_try_parse_ulong(
    context: Option<&mut ExecutionContext>,
    value: Option<&[u8]>,
    destination: Option<&mut Vec<u8>>,
    total_size: i32,
    some_tag: i32,
    none_tag: i32,
    payload_offset: i32,
)
    requires
        context matches Some(c) ==> c.wf(),
        destination matches Some(d) ==> d@.len() >= total_size,
    ensures
        ({
            let report = parse_report(
                value,
                destination is Some,
                total_size,
                payload_offset,
                8,
                "TryParseULong"@,
            );
            let s = text_payload(value)->0;
            &&& context matches Some(c) ==> final(c).wf() && final(c).reported(*c, report)
            &&& destination matches Some(d) ==> final(d)@ == if context is Some && report
                is None {
                option_result(
                    d@,
                    total_size as int,
                    payload_offset as int,
                    parsed_integer(s, false, u64::MIN as int, u64::MAX as int, 8),
                    some_tag,
                    none_tag,
                )
            } else {
                d@
            }
        }),
{
    let context: &mut ExecutionContext = match context {
        None => {
            return ;
        },
        Some(context) => context,
    };
    match context.parse_source(
        value,
        destination.is_some(),
        total_size,
        payload_offset,
        8,
        "TryParseULong",
    ) {
        None => {},
        Some(bytes) => {
            if let Some(target) = destination {
                proof {
                    lemma_auto_spec_u32_to_from_le_bytes();
                    lemma_auto_spec_u64_to_from_le_bytes();
                }
                let parsed: Option<Vec<u8>> = parse_integer(bytes, false, 0, 0xffff_ffff_ffff_ffff, 8);
                write_option_result(
                    target,
                    total_size as usize,
                    payload_offset as usize,
                    &parsed,
                    some_tag,
                    none_tag,
                );
            }
        },
    }
}

/// Parses a `float`. `rounded` are the bits of the nearest one to the number that
/// the text stands for, as the host found it.
pub fn aster_rt_string_try_parse_float(
    context: Option<&mut ExecutionContext>,
    value: Option<&[u8]>,
    rounded: Option<u32>,
    destination: Option<&mut Vec<u8>>,
    total_size: i32,
    some_tag: i32,
    none_tag: i32,
    payload_offset: i32,
)
    requires
        context matches Some(c) ==> c.wf(),
        destination matches Some(d) ==> d@.len() >= total_size,
    ensures
        ({
            let report = parse_report(
                value,
                destination is Some,
                total_size,
                payload_offset,
                4,
                "TryParseFloat"@,
            );
            let s = text_payload(value)->0;
            &&& context matches Some(c) ==> final(c).wf() && final(c).reported(*c, report)
            &&& destination matches Some(d) ==> final(d)@ == if context is Some && report
                is None {
                option_result(
                    d@,
                    total_size as int,
                    payload_offset as int,
                    parsed_float(s, rounded),
                    some_tag,
                    none_tag,
                )
            } else {
                d@
            }
        }),
{
    let context: &mut ExecutionContext = match context {
        None => {
            return ;
        },
        Some(context) => context,
    };
    match context.parse_source(
        value,
        destination.is_some(),
        total_size,
        payload_offset,
        4,
        "TryParseFloat",
    ) {
        None => {},
        Some(bytes) => {
            if let Some(target) = destination {
                proof {
                    lemma_auto_spec_u32_to_from_le_bytes();
                    lemma_auto_spec_u64_to_from_le_bytes();
                }
                let parsed: Option<Vec<u8>> = parse_float(bytes, rounded);
                write_option_result(
                    target,
                    total_size as usize,
                    payload_offset as usize,
                    &parsed,
                    some_tag,
                    none_tag,
                );
            }
        },
    }
}

/// Parses a `double`. `rounded` are the bits of the nearest one to the number that
/// the text stands for, as the host found it.
pub fn aster_rt_string_try_parse_double(
    context: Option<&mut ExecutionContext>,
    value: Option<&[u8]>,
    rounded: Option<u64>,
    destination: Option<&mut Vec<u8>>,
    total_size: i32,
    some_tag: i32,
    none_tag: i32,
    payload_offset: i32,
)
    requires
        context matches Some(c) ==> c.wf(),
        destination matches Some(d) ==> d@.len() >= total_size,
    ensures
        ({
            let report = parse_report(
                value,
                destination is Some,
                total_size,
                payload_offset,
                8,
                "TryParseDouble"@,
            );
            let s = text_payload(value)->0;
            &&& context matches Some(c) ==> final(c).wf() && final(c).reported(*c, report)
            &&& destination matches Some(d) ==> final(d)@ == if context is Some && report
                is None {
                option_result(
                    d@,
                    total_size as int,
                    payload_offset as int,
                    parsed_double(s, rounded),
                    some_tag,
                    none_tag,
                )
            } else {
                d@
            }
        }),
{
    let context: &mut ExecutionContext = match context {
        None => {
            return ;
        },
        Some(context) => context,
    };
    match context.parse_source(
        value,
        destination.is_some(),
        total_size,
        payload_offset,
        8,
        "TryParseDouble",
    ) {
        None => {},
        Some(bytes) => {
            if let Some(target) = destination {
                proof {
                    lemma_auto_spec_u32_to_from_le_bytes();
                    lemma_auto_spec_u64_to_from_le_bytes();
                }
                let parsed: Option<Vec<u8>> = parse_double(bytes, rounded);
                write_option_result(
                    target,
                    total_size as usize,
                    payload_offset as usize,
                    &parsed,
                    some_tag,
                    none_tag,
                );
            }
        },
    }
}

/// The encoding of one digit.
proof fn lemma_encoded_digit(d: int)
    requires
        0 <= d < 10,
    ensures
        encode_utf8(seq![digit(d)]) == seq![(0x30 + d) as u8],
{
    lemma_encode_one(digit(d));
    let c = digit(d) as u32;
    assert(c == 0x30 + d);
    assert((c & 0x7f) as u8 == c) by (bit_vector)
        requires
            c <= 0x39,
    ;
}

proof fn lemma_encoded_decimal(n: nat)
    ensures
        encode_utf8(decimal(n)).len() > 0,
        all_digits(encode_utf8(decimal(n))),
        digits_value(encode_utf8(decimal(n))) == n,
    decreases n,
{
    let bytes = encode_utf8(decimal(n));
    if n < 10 {
        lemma_encoded_digit(n as int);
        assert(bytes.drop_last() =~= Seq::<u8>::empty());
        reveal_with_fuel(digits_value, 2);
    } else {
        let last = digit((n % 10) as int);
        lemma_encoded_decimal(n / 10);
        lemma_encoded_digit((n % 10) as int);
        lemma_encode_concat(decimal(n / 10), seq![last]);
        assert(decimal(n) =~= decimal(n / 10) + seq![last]);
        assert(bytes.drop_last() =~= encode_utf8(decimal(n / 10)));
        assert(bytes.last() == 0x30 + n % 10);
    }
}

/// Parsing the text of an integer gives the integer back.
pub proof fn law_parsing_undoes_formatting(value: int, low: int, high: int)
    requires
        low <= value <= high,
    ensures
        integer_within(encode_utf8(signed_decimal(value)), true, low, high) == Some(value),
        value >= 0 ==> integer_within(encode_utf8(signed_decimal(value)), false, low, high) == Some(
            value,
        ),
{
    let bytes = encode_utf8(signed_decimal(value));
    if value < 0 {
        let digits = encode_utf8(decimal((-value) as nat));
        lemma_encoded_decimal((-value) as nat);
        lemma_encode_concat(seq!['-'], decimal((-value) as nat));
        lemma_encode_one('-');
        assert((0x2du32 & 0x7f) as u8 == 0x2d) by (bit_vector);
        assert(bytes =~= seq![0x2du8] + digits);
        assert(bytes.drop_first() =~= digits);
    } else {
        lemma_encoded_decimal(value as nat);
        assert(is_digit(bytes[0]));
    }
}

} // verus!
