//! What writing numbers as text and reading them from text is for.

use vstd::bytes::{
    lemma_auto_spec_u16_to_from_le_bytes, lemma_auto_spec_u32_to_from_le_bytes,
    lemma_auto_spec_u64_to_from_le_bytes, spec_u16_from_le_bytes, spec_u32_from_le_bytes,
    spec_u32_to_le_bytes, spec_u64_from_le_bytes, spec_u64_to_le_bytes,
};
use vstd::prelude::*;
use vstd::utf8::*;

use crate::context::ExecutionContext;
use crate::meaning::{
    carries, carries_bytes, lemma_carries, lemma_carries_bytes, lemma_makes,
    lemma_payload_is_carried, makes, only_looks, refuses,
};
use crate::string::{
    aster_rt_string_from_long, aster_rt_string_from_long_temporary, aster_rt_string_from_ulong,
    aster_rt_string_from_ulong_temporary, text_payload,
};
use crate::string_parse::{
    all_digits, are_digits, aster_rt_string_try_parse_bool, aster_rt_string_try_parse_byte,
    aster_rt_string_try_parse_char, aster_rt_string_try_parse_double,
    aster_rt_string_try_parse_float, aster_rt_string_try_parse_int,
    aster_rt_string_try_parse_long, aster_rt_string_try_parse_sbyte,
    aster_rt_string_try_parse_short, aster_rt_string_try_parse_uint,
    aster_rt_string_try_parse_ulong, aster_rt_string_try_parse_ushort, bits_of, digits_value,
    integer_bytes, integer_value, is_digit, is_exponent, is_finite_double, is_finite_float,
    is_float_text, is_sign, is_significand, option_result, parsed_bool, parsed_integer,
    same_letters, small_letter,
};
use crate::text::{decimal, digit, signed_decimal};

verus! {

/// The number that decimal digits stand for.
pub open spec fn amount(digits: Seq<char>) -> int {
    digits.fold_left(0int, |n: int, c: char| 10 * n + (c as int - '0' as int))
}

/// These are the decimal digits of a number, without zeros in front.
pub open spec fn are_digits_of(digits: Seq<char>, n: int) -> bool {
    &&& digits.len() > 0
    &&& forall|i: int| 0 <= i < digits.len() ==> '0' <= #[trigger] digits[i] <= '9'
    &&& digits.len() > 1 ==> digits[0] != '0'
    &&& amount(digits) == n
}

pub proof fn lemma_decimal(n: nat)
    ensures
        are_digits_of(decimal(n), n as int),
        n > 0 ==> decimal(n)[0] != '0',
    decreases n,
{
    let digits = decimal(n);
    if n < 10 {
        assert(digits.drop_last() =~= Seq::<char>::empty());
        reveal_with_fuel(Seq::fold_left, 2);
        assert(digits.drop_last().fold_left(
            0int,
            |n: int, c: char| 10 * n + (c as int - '0' as int),
        ) == 0);
        assert(digits.last() == digit(n as int));
    } else {
        lemma_decimal(n / 10);
        assert(digits.drop_last() =~= decimal(n / 10));
        assert(digits[0] == decimal(n / 10)[0]);
        assert forall|i: int| 0 <= i < digits.len() implies '0' <= #[trigger] digits[i] <= '9' by {
            if i < digits.len() - 1 {
                assert(digits[i] == decimal(n / 10)[i]);
            }
        }
    }
}

spec fn power_of_ten(k: nat) -> nat
    decreases k,
{
    if k == 0 {
        1
    } else {
        10 * power_of_ten((k - 1) as nat)
    }
}

proof fn lemma_decimal_length(n: nat, k: nat)
    requires
        k > 0,
        n < power_of_ten(k),
    ensures
        decimal(n).len() <= k,
    decreases k,
{
    if n >= 10 {
        if k == 1 {
            reveal_with_fuel(power_of_ten, 2);
        }
        lemma_decimal_length(n / 10, (k - 1) as nat);
    }
}

proof fn lemma_decimal_fits(n: nat)
    requires
        n <= u64::MAX,
    ensures
        decimal(n).len() <= 20,
        encode_utf8(decimal(n)).len() == decimal(n).len(),
        is_ascii_chars(decimal(n)),
{
    reveal_with_fuel(power_of_ten, 21);
    lemma_decimal_length(n, 20);
    lemma_decimal(n);
    is_ascii_chars_encode_utf8(decimal(n));
}

/// A signed integer is written as its decimal digits, behind a minus sign just when it
/// is negative.
pub proof fn law_from_long(
    context: Option<&mut ExecutionContext>,
    value: i64,
    temporary: bool,
    result: Option<u64>,
)
    requires
        context matches Some(c) && c.wf(),
        temporary ==> call_ensures(aster_rt_string_from_long_temporary, (context, value), result),
        !temporary ==> call_ensures(aster_rt_string_from_long, (context, value), result),
    ensures
        value >= 0 ==> exists|digits: Seq<char>|
            #![trigger are_digits_of(digits, value as int)]
            are_digits_of(digits, value as int) && makes(
                *context->0,
                *final(context->0),
                temporary,
                digits,
                result,
            ),
        value < 0 ==> exists|digits: Seq<char>|
            #![trigger are_digits_of(digits, -value)]
            are_digits_of(digits, -value) && makes(
                *context->0,
                *final(context->0),
                temporary,
                seq!['-'] + digits,
                result,
            ),
{
    let text = signed_decimal(value as int);
    let digits = if value < 0 {
        decimal((-value) as nat)
    } else {
        decimal(value as nat)
    };
    lemma_decimal(
        if value < 0 {
            (-value) as nat
        } else {
            value as nat
        },
    );
    lemma_decimal_fits(
        if value < 0 {
            (-value) as nat
        } else {
            value as nat
        },
    );
    if value < 0 {
        crate::scalars::lemma_encode_concat(seq!['-'], digits);
        crate::scalars::lemma_encode_one('-');
        assert(encode_utf8(text).len() <= 384);
        assert(are_digits_of(digits, -value));
    } else {
        assert(are_digits_of(digits, value as int));
    }
    lemma_makes(*context->0, *final(context->0), temporary, encode_utf8(text), result);
}

/// An unsigned integer is written as its decimal digits.
pub proof fn law_from_ulong(
    context: Option<&mut ExecutionContext>,
    value: i64,
    temporary: bool,
    result: Option<u64>,
)
    requires
        context matches Some(c) && c.wf(),
        temporary ==> call_ensures(aster_rt_string_from_ulong_temporary, (context, value), result),
        !temporary ==> call_ensures(aster_rt_string_from_ulong, (context, value), result),
    ensures
        exists|digits: Seq<char>|
            #![trigger are_digits_of(digits, value as u64 as int)]
            are_digits_of(digits, value as u64 as int) && makes(
                *context->0,
                *final(context->0),
                temporary,
                digits,
                result,
            ),
{
    let n = value as u64 as nat;
    lemma_decimal(n);
    lemma_decimal_fits(n);
    assert(are_digits_of(decimal(n), value as u64 as int));
    lemma_makes(*context->0, *final(context->0), temporary, encode_utf8(decimal(n)), result);
}

/// The number that ASCII digits stand for.
pub open spec fn ascii_amount(digits: Seq<u8>) -> int {
    digits.fold_left(0int, |n: int, b: u8| 10 * n + (b - 48))
}

/// ASCII digits, at least one of them.
pub open spec fn are_ascii_digits(digits: Seq<u8>) -> bool {
    digits.len() > 0 && forall|i: int|
        0 <= i < digits.len() ==> 48 <= #[trigger] digits[i] <= 57
}

/// Bytes spell an integer: digits, or a sign and digits.
pub open spec fn spells(s: Seq<u8>, signed: bool, value: int) -> bool {
    exists|digits: Seq<u8>|
        {
            &&& #[trigger] are_ascii_digits(digits)
            &&& {
                ||| s == digits && value == ascii_amount(digits)
                ||| s == seq![43u8] + digits && value == ascii_amount(digits)
                ||| signed && s == seq![45u8] + digits && value == -ascii_amount(digits)
            }
        }
}

proof fn lemma_ascii_amount(digits: Seq<u8>)
    requires
        all_digits(digits),
    ensures
        ascii_amount(digits) == digits_value(digits),
    decreases digits.len(),
{
    if digits.len() > 0 {
        let shorter = digits.drop_last();
        assert forall|i: int| 0 <= i < shorter.len() implies is_digit(#[trigger] shorter[i]) by {
            assert(is_digit(digits[i]));
        }
        lemma_ascii_amount(shorter);
        assert(is_digit(digits[digits.len() - 1]));
    }
}

proof fn lemma_spells(s: Seq<u8>, signed: bool)
    ensures
        forall|value: int| #[trigger]
            spells(s, signed, value) <==> integer_value(s, signed) == Some(value),
{
    assert forall|value: int| #[trigger]
        spells(s, signed, value) <==> integer_value(s, signed) == Some(value) by {
        if spells(s, signed, value) {
            let digits = choose|digits: Seq<u8>|
                {
                    &&& #[trigger] are_ascii_digits(digits)
                    &&& {
                        ||| s == digits && value == ascii_amount(digits)
                        ||| s == seq![43u8] + digits && value == ascii_amount(digits)
                        ||| signed && s == seq![45u8] + digits && value == -ascii_amount(digits)
                    }
                };
            assert(all_digits(digits));
            lemma_ascii_amount(digits);
            if s == digits {
                assert(48 <= digits[0] <= 57);
            } else {
                assert(s.drop_first() =~= digits);
            }
        }
        if integer_value(s, signed) == Some(value) {
            let plus = s.len() > 0 && s[0] == 0x2b;
            let minus = signed && s.len() > 0 && s[0] == 0x2d;
            let digits = if plus || minus {
                s.drop_first()
            } else {
                s
            };
            assert forall|i: int| 0 <= i < digits.len() implies 48 <= #[trigger] digits[i]
                <= 57 by {
                assert(is_digit(digits[i]));
            }
            assert(are_ascii_digits(digits));
            lemma_ascii_amount(digits);
            if plus {
                assert(s =~= seq![43u8] + digits);
            } else if minus {
                assert(s =~= seq![45u8] + digits);
            }
        }
    }
}

/// An optional value was written to a destination, and it is there: its tag, then its
/// payload at its place, and zeros around it. What lies behind is as it was.
pub open spec fn tells(
    before: Seq<u8>,
    after: Seq<u8>,
    total_size: int,
    payload_offset: int,
    tag: i32,
    payload: Seq<u8>,
) -> bool {
    &&& after.len() == before.len()
    &&& after.take(4) == spec_u32_to_le_bytes(tag as u32)
    &&& after.subrange(payload_offset, payload_offset + payload.len()) == payload
    &&& forall|i: int|
        4 <= i < total_size && !(payload_offset <= i < payload_offset + payload.len())
            ==> #[trigger] after[i] == 0
    &&& forall|i: int| total_size <= i < before.len() ==> #[trigger] after[i] == before[i]
}

/// A place for an optional value of `size` bytes behind its tag.
pub open spec fn is_place(total_size: i32, payload_offset: i32, size: int) -> bool {
    4 <= payload_offset && payload_offset + size <= total_size
}

pub proof fn lemma_tells(
    before: Seq<u8>,
    total_size: i32,
    payload_offset: i32,
    payload: Option<Seq<u8>>,
    some_tag: i32,
    none_tag: i32,
)
    requires
        before.len() >= total_size,
        is_place(
            total_size,
            payload_offset,
            match payload {
                Some(bytes) => bytes.len() as int,
                None => 0,
            },
        ),
    ensures
        ({
            let after = option_result(
                before,
                total_size as int,
                payload_offset as int,
                payload,
                some_tag,
                none_tag,
            );
            match payload {
                Some(bytes) => tells(
                    before,
                    after,
                    total_size as int,
                    payload_offset as int,
                    some_tag,
                    bytes,
                ),
                None => tells(
                    before,
                    after,
                    total_size as int,
                    payload_offset as int,
                    none_tag,
                    Seq::empty(),
                ),
            }
        }),
{
    lemma_auto_spec_u32_to_from_le_bytes();
    let after = option_result(
        before,
        total_size as int,
        payload_offset as int,
        payload,
        some_tag,
        none_tag,
    );
    match payload {
        Some(bytes) => {
            assert(after.take(4) =~= spec_u32_to_le_bytes(some_tag as u32));
            assert(after.subrange(
                payload_offset as int,
                payload_offset + bytes.len(),
            ) =~= bytes);
        },
        None => {
            assert(after.take(4) =~= spec_u32_to_le_bytes(none_tag as u32));
            assert(after.subrange(payload_offset as int, payload_offset as int)
                =~= Seq::<u8>::empty());
        },
    }
}

/// The integer types of the language.
pub enum IntegerType {
    SByte,
    Byte,
    Short,
    UShort,
    Int,
    UInt,
    Long,
    ULong,
}

impl IntegerType {
    pub open spec fn is_signed(self) -> bool {
        self is SByte || self is Short || self is Int || self is Long
    }

    /// How many bytes a value takes.
    pub open spec fn size(self) -> int {
        match self {
            IntegerType::SByte => 1,
            IntegerType::Byte => 1,
            IntegerType::Short => 2,
            IntegerType::UShort => 2,
            IntegerType::Int => 4,
            IntegerType::UInt => 4,
            IntegerType::Long => 8,
            IntegerType::ULong => 8,
        }
    }

    /// Whether the type has this value.
    pub open spec fn has(self, value: int) -> bool {
        match self {
            IntegerType::SByte => i8::MIN <= value <= i8::MAX,
            IntegerType::Byte => u8::MIN <= value <= u8::MAX,
            IntegerType::Short => i16::MIN <= value <= i16::MAX,
            IntegerType::UShort => u16::MIN <= value <= u16::MAX,
            IntegerType::Int => i32::MIN <= value <= i32::MAX,
            IntegerType::UInt => u32::MIN <= value <= u32::MAX,
            IntegerType::Long => i64::MIN <= value <= i64::MAX,
            IntegerType::ULong => u64::MIN <= value <= u64::MAX,
        }
    }

    /// The value that bytes stand for: a little-endian number, which counts as the
    /// negative one of the same bits where a signed type does not have it.
    pub open spec fn value_of(self, bytes: Seq<u8>) -> int {
        let (number, span) = if self.size() == 1 {
            (bytes[0] as int, 0x100int)
        } else if self.size() == 2 {
            (spec_u16_from_le_bytes(bytes) as int, 0x1_0000int)
        } else if self.size() == 4 {
            (spec_u32_from_le_bytes(bytes) as int, 0x1_0000_0000int)
        } else {
            (spec_u64_from_le_bytes(bytes) as int, 0x1_0000_0000_0000_0000int)
        };
        if self.has(number) {
            number
        } else {
            number - span
        }
    }
}

/// What a parse of an integer writes: the value that the text spells, if the type has
/// it, and otherwise that there is none.
pub open spec fn tells_integer(
    before: Seq<u8>,
    after: Seq<u8>,
    total_size: i32,
    payload_offset: i32,
    some_tag: i32,
    none_tag: i32,
    kind: IntegerType,
    s: Seq<u8>,
) -> bool {
    let (total, at) = (total_size as int, payload_offset as int);
    &&& forall|value: int| #[trigger]
        spells(s, kind.is_signed(), value) && kind.has(value) ==> {
            let payload = after.subrange(at, at + kind.size());
            &&& tells(before, after, total, at, some_tag, payload)
            &&& kind.value_of(payload) == value
        }
    &&& !(exists|value: int| #[trigger] spells(s, kind.is_signed(), value) && kind.has(value))
        ==> tells(before, after, total, at, none_tag, Seq::empty())
}

/// The low bits of an integer are its remainder.
proof fn lemma_low_bits(value: int)
    requires
        i64::MIN <= value <= u64::MAX,
    ensures
        (bits_of(value) as u8) as int == value % 0x100,
        (bits_of(value) as u16) as int == value % 0x1_0000,
        (bits_of(value) as u32) as int == value % 0x1_0000_0000,
        bits_of(value) as int == value % 0x1_0000_0000_0000_0000,
{
    let bits = bits_of(value);
    assert(bits as u8 == bits % 0x100) by (bit_vector);
    assert(bits as u16 == bits % 0x1_0000) by (bit_vector);
    assert(bits as u32 == bits % 0x1_0000_0000) by (bit_vector);
    let whole = if value < 0 {
        value + 0x1_0000_0000_0000_0000
    } else {
        value
    };
    assert(bits as int == whole);
    assert(whole % 0x100 == value % 0x100);
    assert(whole % 0x1_0000 == value % 0x1_0000);
    assert(whole % 0x1_0000_0000 == value % 0x1_0000_0000);
}

/// The bytes that a parse writes stand for the integer that the text spells.
#[verifier::spinoff_prover]
proof fn lemma_integer_bytes(kind: IntegerType, value: int)
    requires
        kind.has(value),
    ensures
        integer_bytes(value, kind.size()).len() == kind.size(),
        kind.value_of(integer_bytes(value, kind.size())) == value,
{
    lemma_low_bits(value);
    let bits = bits_of(value);
    let bytes = integer_bytes(value, kind.size());
    if kind.size() == 1 {
        assert(bytes[0] == bits as u8);
    } else if kind.size() == 2 {
        lemma_auto_spec_u16_to_from_le_bytes();
        assert(bytes.len() == 2);
        assert(spec_u16_from_le_bytes(bytes) == bits as u16);
    } else if kind.size() == 4 {
        lemma_auto_spec_u32_to_from_le_bytes();
        assert(bytes.len() == 4);
        assert(spec_u32_from_le_bytes(bytes) == bits as u32);
    } else {
        lemma_auto_spec_u64_to_from_le_bytes();
        assert(spec_u64_to_le_bytes(bits).len() == 8);
        assert(bytes =~= spec_u64_to_le_bytes(bits));
        assert(spec_u64_from_le_bytes(bytes) == bits);
    }
}

proof fn lemma_tells_integer(
    before: Seq<u8>,
    total_size: i32,
    payload_offset: i32,
    some_tag: i32,
    none_tag: i32,
    kind: IntegerType,
    s: Seq<u8>,
    low: int,
    high: int,
)
    requires
        before.len() >= total_size,
        is_place(total_size, payload_offset, kind.size()),
        forall|value: int| low <= value <= high <==> #[trigger] kind.has(value),
    ensures
        tells_integer(
            before,
            option_result(
                before,
                total_size as int,
                payload_offset as int,
                parsed_integer(s, kind.is_signed(), low, high, kind.size()),
                some_tag,
                none_tag,
            ),
            total_size,
            payload_offset,
            some_tag,
            none_tag,
            kind,
            s,
        ),
{
    let parsed = parsed_integer(s, kind.is_signed(), low, high, kind.size());
    lemma_spells(s, kind.is_signed());
    if let Some(value) = integer_value(s, kind.is_signed()) {
        assert(spells(s, kind.is_signed(), value));
        if kind.has(value) {
            lemma_integer_bytes(kind, value);
        }
    }
    lemma_tells(before, total_size, payload_offset, parsed, some_tag, none_tag);
    let after = option_result(
        before,
        total_size as int,
        payload_offset as int,
        parsed,
        some_tag,
        none_tag,
    );
    assert forall|value: int| #[trigger]
        spells(s, kind.is_signed(), value) && kind.has(value) implies {
        let at = payload_offset as int;
        let payload = after.subrange(at, at + kind.size());
        &&& tells(before, after, total_size as int, at, some_tag, payload)
        &&& kind.value_of(payload) == value
    } by {
        assert(integer_value(s, kind.is_signed()) == Some(value));
        assert(parsed == Some(integer_bytes(value, kind.size())));
    }
}

/// A parse of an integer gives the value that the text spells, if the type has it, and
/// otherwise none. It reports nothing either way.
pub proof fn law_parse_integer(
    kind: IntegerType,
    context: Option<&mut ExecutionContext>,
    value: Option<&[u8]>,
    destination: Option<&mut Vec<u8>>,
    total_size: i32,
    some_tag: i32,
    none_tag: i32,
    payload_offset: i32,
    s: Seq<u8>,
)
    requires
        context matches Some(c) && c.wf(),
        carries_bytes(value, s),
        valid_utf8(s),
        destination matches Some(d) && d@.len() >= total_size,
        is_place(total_size, payload_offset, kind.size()),
        ({
            let arguments = (
                context,
                value,
                destination,
                total_size,
                some_tag,
                none_tag,
                payload_offset,
            );
            match kind {
                IntegerType::SByte => call_ensures(aster_rt_string_try_parse_sbyte, arguments, ()),
                IntegerType::Byte => call_ensures(aster_rt_string_try_parse_byte, arguments, ()),
                IntegerType::Short => call_ensures(aster_rt_string_try_parse_short, arguments, ()),
                IntegerType::UShort => call_ensures(
                    aster_rt_string_try_parse_ushort,
                    arguments,
                    (),
                ),
                IntegerType::Int => call_ensures(aster_rt_string_try_parse_int, arguments, ()),
                IntegerType::UInt => call_ensures(aster_rt_string_try_parse_uint, arguments, ()),
                IntegerType::Long => call_ensures(aster_rt_string_try_parse_long, arguments, ()),
                IntegerType::ULong => call_ensures(aster_rt_string_try_parse_ulong, arguments, ()),
            }
        }),
    ensures
        only_looks(*context->0, *final(context->0)),
        tells_integer(
            destination->0@,
            final(destination->0)@,
            total_size,
            payload_offset,
            some_tag,
            none_tag,
            kind,
            s,
        ),
{
    lemma_carries_bytes(value, s);
    let (low, high) = match kind {
        IntegerType::SByte => (i8::MIN as int, i8::MAX as int),
        IntegerType::Byte => (0int, u8::MAX as int),
        IntegerType::Short => (i16::MIN as int, i16::MAX as int),
        IntegerType::UShort => (0int, u16::MAX as int),
        IntegerType::Int => (i32::MIN as int, i32::MAX as int),
        IntegerType::UInt => (0int, u32::MAX as int),
        IntegerType::Long => (i64::MIN as int, i64::MAX as int),
        IntegerType::ULong => (0int, u64::MAX as int),
    };
    lemma_tells_integer(
        destination->0@,
        total_size,
        payload_offset,
        some_tag,
        none_tag,
        kind,
        s,
        low,
        high,
    );
}

/// What is no text, has no destination or does not fit its destination is not parsed:
/// that is reported, and nothing is written.
pub proof fn law_parse_refuses(
    kind: IntegerType,
    context: Option<&mut ExecutionContext>,
    value: Option<&[u8]>,
    destination: Option<&mut Vec<u8>>,
    total_size: i32,
    some_tag: i32,
    none_tag: i32,
    payload_offset: i32,
)
    requires
        context matches Some(c) && c.wf(),
        ({
            ||| forall|text: Seq<char>| !#[trigger] carries(value, text)
            ||| destination is None
            ||| total_size < 0
            ||| payload_offset < 0
            ||| payload_offset + kind.size() > total_size
        }),
        ({
            let arguments = (
                context,
                value,
                destination,
                total_size,
                some_tag,
                none_tag,
                payload_offset,
            );
            match kind {
                IntegerType::SByte => call_ensures(aster_rt_string_try_parse_sbyte, arguments, ()),
                IntegerType::Byte => call_ensures(aster_rt_string_try_parse_byte, arguments, ()),
                IntegerType::Short => call_ensures(aster_rt_string_try_parse_short, arguments, ()),
                IntegerType::UShort => call_ensures(
                    aster_rt_string_try_parse_ushort,
                    arguments,
                    (),
                ),
                IntegerType::Int => call_ensures(aster_rt_string_try_parse_int, arguments, ()),
                IntegerType::UInt => call_ensures(aster_rt_string_try_parse_uint, arguments, ()),
                IntegerType::Long => call_ensures(aster_rt_string_try_parse_long, arguments, ()),
                IntegerType::ULong => call_ensures(aster_rt_string_try_parse_ulong, arguments, ()),
            }
        }),
    ensures
        refuses(*context->0, *final(context->0)),
        destination matches Some(d) ==> final(d)@ == d@,
{
    lemma_payload_is_carried(value);
    if let Some(bytes) = text_payload(value) {
        decode_utf8_encode_utf8(bytes);
        assert(carries(value, decode_utf8(bytes)));
    }
}

/// What a program writes of an integer, it reads back.
pub proof fn law_written_integers_are_read_back(digits: Seq<char>, n: int, negative: bool)
    requires
        are_digits_of(digits, n),
    ensures
        !negative ==> spells(encode_utf8(digits), true, n) && spells(encode_utf8(digits), false, n),
        negative ==> spells(encode_utf8(seq!['-'] + digits), true, -n),
{
    is_ascii_chars_encode_utf8(digits);
    let bytes = encode_utf8(digits);
    assert(bytes.len() == digits.len());
    assert forall|i: int| 0 <= i < bytes.len() implies 48 <= #[trigger] bytes[i] <= 57 by {
        assert('0' <= digits[i] <= '9');
        assert(bytes[i] == digits[i] as u8);
    }
    lemma_same_amount(digits, bytes);
    assert(are_ascii_digits(bytes));
    crate::scalars::lemma_encode_concat(seq!['-'], digits);
    crate::scalars::lemma_encode_one('-');
    assert((0x2du32 & 0x7f) as u8 == 0x2d) by (bit_vector);
    assert(encode_utf8(seq!['-'] + digits) =~= seq![45u8] + bytes);
}

proof fn lemma_same_amount(digits: Seq<char>, bytes: Seq<u8>)
    requires
        digits.len() == bytes.len(),
        forall|i: int|
            0 <= i < digits.len() ==> '0' <= #[trigger] digits[i] <= '9' && bytes[i]
                == digits[i] as u8,
    ensures
        amount(digits) == ascii_amount(bytes),
    decreases digits.len(),
{
    if digits.len() > 0 {
        assert forall|i: int| 0 <= i < digits.drop_last().len() implies '0'
            <= #[trigger] digits.drop_last()[i] <= '9' && bytes.drop_last()[i]
            == digits.drop_last()[i] as u8 by {
            assert('0' <= digits[i] <= '9');
        }
        lemma_same_amount(digits.drop_last(), bytes.drop_last());
        assert('0' <= digits[digits.len() - 1] <= '9');
    }
}

/// Bytes are a word, in large or small letters.
pub open spec fn is_word(s: Seq<u8>, small: Seq<u8>, large: Seq<u8>) -> bool {
    s.len() == small.len() && forall|i: int|
        0 <= i < s.len() ==> #[trigger] s[i] == small[i] || s[i] == large[i]
}

/// A parse of a truth value gives the one that the text names, in large or small
/// letters, and otherwise none.
pub proof fn law_parse_bool(
    context: Option<&mut ExecutionContext>,
    value: Option<&[u8]>,
    destination: Option<&mut Vec<u8>>,
    total_size: i32,
    some_tag: i32,
    none_tag: i32,
    payload_offset: i32,
    s: Seq<u8>,
)
    requires
        context matches Some(c) && c.wf(),
        carries_bytes(value, s),
        valid_utf8(s),
        destination matches Some(d) && d@.len() >= total_size,
        is_place(total_size, payload_offset, 1),
        call_ensures(
            aster_rt_string_try_parse_bool,
            (context, value, destination, total_size, some_tag, none_tag, payload_offset),
            (),
        ),
    ensures
        only_looks(*context->0, *final(context->0)),
        ({
            let before = destination->0@;
            let after = final(destination->0)@;
            let (total, at) = (total_size as int, payload_offset as int);
            let yes = is_word(s, seq![116u8, 114, 117, 101], seq![84u8, 82, 85, 69]);
            let no = is_word(s, seq![102u8, 97, 108, 115, 101], seq![70u8, 65, 76, 83, 69]);
            &&& yes ==> tells(before, after, total, at, some_tag, seq![1u8])
            &&& no ==> tells(before, after, total, at, some_tag, seq![0u8])
            &&& !yes && !no ==> tells(before, after, total, at, none_tag, Seq::empty())
        }),
{
    lemma_carries_bytes(value, s);
    let parsed = parsed_bool(s);
    let yes = seq![0x74u8, 0x72u8, 0x75u8, 0x65u8];
    let no = seq![0x66u8, 0x61u8, 0x6cu8, 0x73u8, 0x65u8];
    lemma_word(s, yes, seq![84u8, 82, 85, 69]);
    lemma_word(s, no, seq![70u8, 65, 76, 83, 69]);
    assert(seq![116u8, 114, 117, 101] =~= yes);
    assert(seq![102u8, 97, 108, 115, 101] =~= no);
    lemma_tells(destination->0@, total_size, payload_offset, parsed, some_tag, none_tag);
}

proof fn lemma_word(s: Seq<u8>, small: Seq<u8>, large: Seq<u8>)
    requires
        small.len() == large.len(),
        forall|i: int|
            0 <= i < small.len() ==> 0x61 <= #[trigger] small[i] <= 0x7a && large[i] + 0x20
                == small[i],
    ensures
        same_letters(s, small) == is_word(s, small, large),
{
    if same_letters(s, small) {
        assert forall|i: int| 0 <= i < s.len() implies #[trigger] s[i] == small[i] || s[i]
            == large[i] by {
            assert(small_letter(s[i]) == small[i]);
        }
    }
    if is_word(s, small, large) {
        assert forall|i: int| 0 <= i < s.len() implies small_letter(#[trigger] s[i])
            == small[i] by {
            assert(0x61 <= small[i] <= 0x7a);
        }
    }
}

/// A parse of a character gives the one that is the whole text, and otherwise none.
pub proof fn law_parse_char(
    context: Option<&mut ExecutionContext>,
    value: Option<&[u8]>,
    destination: Option<&mut Vec<u8>>,
    total_size: i32,
    some_tag: i32,
    none_tag: i32,
    payload_offset: i32,
    text: Seq<char>,
)
    requires
        context matches Some(c) && c.wf(),
        carries(value, text),
        destination matches Some(d) && d@.len() >= total_size,
        is_place(total_size, payload_offset, 4),
        call_ensures(
            aster_rt_string_try_parse_char,
            (context, value, destination, total_size, some_tag, none_tag, payload_offset),
            (),
        ),
    ensures
        only_looks(*context->0, *final(context->0)),
        ({
            let before = destination->0@;
            let after = final(destination->0)@;
            let (total, at) = (total_size as int, payload_offset as int);
            &&& text.len() == 1 ==> tells(
                before,
                after,
                total,
                at,
                some_tag,
                spec_u32_to_le_bytes(text[0] as u32),
            )
            &&& text.len() != 1 ==> tells(before, after, total, at, none_tag, Seq::empty())
        }),
{
    lemma_auto_spec_u32_to_from_le_bytes();
    lemma_carries(value, text);
    encode_utf8_decode_utf8(text);
    let parsed = if text.len() == 1 {
        Some(spec_u32_to_le_bytes(text[0] as u32))
    } else {
        None
    };
    lemma_tells(destination->0@, total_size, payload_offset, parsed, some_tag, none_tag);
}

/// ASCII digits, or nothing.
pub open spec fn may_be_digits(s: Seq<u8>) -> bool {
    s.len() == 0 || are_ascii_digits(s)
}

/// A sign, or nothing.
pub open spec fn may_be_sign(s: Seq<u8>) -> bool {
    s.len() == 0 || s == seq![43u8] || s == seq![45u8]
}

/// Bytes spell a decimal number: a sign, digits, a point and digits, then an exponent.
/// Each may be missing, but not all digits before the exponent.
pub open spec fn spells_number(s: Seq<u8>) -> bool {
    exists|sign: Seq<u8>, whole: Seq<u8>, fraction: Seq<u8>, exponent: Seq<u8>|
        {
            &&& may_be_sign(sign)
            &&& may_be_digits(whole)
            &&& {
                ||| fraction.len() == 0 && whole.len() > 0
                ||| {
                    &&& fraction.len() > 0
                    &&& fraction[0] == 46
                    &&& may_be_digits(fraction.skip(1))
                    &&& whole.len() > 0 || fraction.len() > 1
                }
            }
            &&& exponent.len() == 0 || is_exponent_part(exponent)
            &&& s == #[trigger] (sign + whole + fraction + exponent)
        }
}

/// An exponent: its letter, perhaps a sign, and digits.
pub open spec fn is_exponent_part(s: Seq<u8>) -> bool {
    &&& s.len() > 0
    &&& s[0] == 101 || s[0] == 69
    &&& are_ascii_digits(s.skip(1)) || s.len() > 1 && (s[1] == 43 || s[1] == 45)
        && are_ascii_digits(s.skip(2))
}

proof fn lemma_float_text_is_spelled(s: Seq<u8>)
    requires
        is_float_text(s),
    ensures
        spells_number(s),
{
    let (start, point, end, first) = choose|start: int, point: int, end: int, first: int|
        {
            &&& 0 <= start <= end <= s.len()
            &&& is_sign(s, 0, start)
            &&& #[trigger] is_significand(s, start, point, end)
            &&& #[trigger] is_exponent(s, end, first, s.len() as int)
        };
    let n = s.len() as int;
    let sign = s.subrange(0, start);
    let whole = s.subrange(start, point);
    let fraction = s.subrange(point, end);
    let exponent = s.subrange(end, n);
    if start == 1 {
        assert(sign =~= seq![s[0]]);
    }
    assert forall|i: int| 0 <= i < whole.len() implies 48 <= #[trigger] whole[i] <= 57 by {
        assert(is_digit(s[start + i]));
    }
    if point != end {
        let digits = fraction.skip(1);
        assert forall|i: int| 0 <= i < digits.len() implies 48 <= #[trigger] digits[i] <= 57 by {
            assert(is_digit(s[point + 1 + i]));
        }
    }
    if end < n {
        let digits = exponent.skip(first - end);
        assert forall|i: int| 0 <= i < digits.len() implies 48 <= #[trigger] digits[i] <= 57 by {
            assert(is_digit(s[first + i]));
        }
        assert(are_ascii_digits(digits));
        assert(exponent[0] == s[end]);
        if first == end + 2 {
            assert(exponent[1] == s[end + 1]);
        }
    }
    assert(s =~= sign + whole + fraction + exponent);
}

proof fn lemma_spelled_is_float_text(s: Seq<u8>)
    requires
        spells_number(s),
    ensures
        is_float_text(s),
{
    let (sign, whole, fraction, exponent) = choose|
        sign: Seq<u8>,
        whole: Seq<u8>,
        fraction: Seq<u8>,
        exponent: Seq<u8>,
    |
        {
            &&& may_be_sign(sign)
            &&& may_be_digits(whole)
            &&& {
                ||| fraction.len() == 0 && whole.len() > 0
                ||| {
                    &&& fraction.len() > 0
                    &&& fraction[0] == 46
                    &&& may_be_digits(fraction.skip(1))
                    &&& whole.len() > 0 || fraction.len() > 1
                }
            }
            &&& exponent.len() == 0 || is_exponent_part(exponent)
            &&& s == #[trigger] (sign + whole + fraction + exponent)
        };
    let n = s.len() as int;
    let start = sign.len() as int;
    let point = start + whole.len();
    let end = point + fraction.len();
    if start == 1 {
        assert(s[0] == sign[0]);
    }
    assert forall|k: int| start <= k < point implies is_digit(#[trigger] s[k]) by {
        assert(s[k] == whole[k - start]);
    }
    if fraction.len() > 0 {
        assert(s[point] == fraction[0]);
        assert forall|k: int| point + 1 <= k < end implies is_digit(#[trigger] s[k]) by {
            assert(s[k] == fraction.skip(1)[k - point - 1]);
        }
    }
    assert(is_significand(s, start, point, end));
    if exponent.len() > 0 {
        assert(s[end] == exponent[0]);
        let first = if are_ascii_digits(exponent.skip(1)) {
            end + 1
        } else {
            end + 2
        };
        if first == end + 2 {
            assert(s[end + 1] == exponent[1]);
        }
        assert forall|k: int| first <= k < n implies is_digit(#[trigger] s[k]) by {
            assert(s[k] == exponent.skip(first - end)[k - first]);
        }
        assert(is_exponent(s, end, first, n));
    } else {
        assert(is_exponent(s, end, end, n));
    }
}

/// A parse of a `float` gives the bits that the host found nearest to a decimal number,
/// if they are those of a finite one, and otherwise none.
pub proof fn law_parse_float(
    context: Option<&mut ExecutionContext>,
    value: Option<&[u8]>,
    rounded: Option<u32>,
    destination: Option<&mut Vec<u8>>,
    total_size: i32,
    some_tag: i32,
    none_tag: i32,
    payload_offset: i32,
    s: Seq<u8>,
)
    requires
        context matches Some(c) && c.wf(),
        carries_bytes(value, s),
        valid_utf8(s),
        destination matches Some(d) && d@.len() >= total_size,
        is_place(total_size, payload_offset, 4),
        call_ensures(
            aster_rt_string_try_parse_float,
            (context, value, rounded, destination, total_size, some_tag, none_tag, payload_offset),
            (),
        ),
    ensures
        only_looks(*context->0, *final(context->0)),
        ({
            let before = destination->0@;
            let after = final(destination->0)@;
            let (total, at) = (total_size as int, payload_offset as int);
            let known = spells_number(s) && rounded is Some && rounded->0 as int / 0x80_0000
                % 0x100 != 0xff;
            &&& known ==> tells(
                before,
                after,
                total,
                at,
                some_tag,
                spec_u32_to_le_bytes(rounded->0),
            )
            &&& !known ==> tells(before, after, total, at, none_tag, Seq::empty())
        }),
{
    lemma_auto_spec_u32_to_from_le_bytes();
    lemma_carries_bytes(value, s);
    if is_float_text(s) {
        lemma_float_text_is_spelled(s);
    }
    if spells_number(s) {
        lemma_spelled_is_float_text(s);
    }
    if let Some(bits) = rounded {
        assert((bits & 0x7f80_0000 != 0x7f80_0000) == (bits / 0x80_0000 % 0x100 != 0xff))
            by (bit_vector);
    }
    let parsed = crate::string_parse::parsed_float(s, rounded);
    lemma_tells(destination->0@, total_size, payload_offset, parsed, some_tag, none_tag);
}

/// A parse of a `double` gives the bits that the host found nearest to a decimal
/// number, if they are those of a finite one, and otherwise none.
pub proof fn law_parse_double(
    context: Option<&mut ExecutionContext>,
    value: Option<&[u8]>,
    rounded: Option<u64>,
    destination: Option<&mut Vec<u8>>,
    total_size: i32,
    some_tag: i32,
    none_tag: i32,
    payload_offset: i32,
    s: Seq<u8>,
)
    requires
        context matches Some(c) && c.wf(),
        carries_bytes(value, s),
        valid_utf8(s),
        destination matches Some(d) && d@.len() >= total_size,
        is_place(total_size, payload_offset, 8),
        call_ensures(
            aster_rt_string_try_parse_double,
            (context, value, rounded, destination, total_size, some_tag, none_tag, payload_offset),
            (),
        ),
    ensures
        only_looks(*context->0, *final(context->0)),
        ({
            let before = destination->0@;
            let after = final(destination->0)@;
            let (total, at) = (total_size as int, payload_offset as int);
            let known = spells_number(s) && rounded is Some && rounded->0 as int
                / 0x10_0000_0000_0000 % 0x800 != 0x7ff;
            &&& known ==> tells(
                before,
                after,
                total,
                at,
                some_tag,
                spec_u64_to_le_bytes(rounded->0),
            )
            &&& !known ==> tells(before, after, total, at, none_tag, Seq::empty())
        }),
{
    lemma_auto_spec_u64_to_from_le_bytes();
    lemma_carries_bytes(value, s);
    if is_float_text(s) {
        lemma_float_text_is_spelled(s);
    }
    if spells_number(s) {
        lemma_spelled_is_float_text(s);
    }
    if let Some(bits) = rounded {
        assert((bits & 0x7ff0_0000_0000_0000 != 0x7ff0_0000_0000_0000) == (bits
            / 0x10_0000_0000_0000 % 0x800 != 0x7ff)) by (bit_vector);
    }
    let parsed = crate::string_parse::parsed_double(s, rounded);
    lemma_tells(destination->0@, total_size, payload_offset, parsed, some_tag, none_tag);
}

} // verus!
