//! What the remaining calls are for: reports, clocks, the classes of floating-point
//! values, the codes of operations, and the registry of native functions.

use vstd::prelude::*;

use crate::context::ExecutionContext;
use crate::foreign::{
    aster_rt_foreign_error, ForeignRegistry, ForeignRegistryError, ForeignSignature,
};
use crate::math::{
    aster_rt_assert_equal, aster_rt_integer_arithmetic_error, aster_rt_math_domain_error,
    aster_rt_math_predicate_double, aster_rt_math_predicate_float, aster_rt_random_mix,
    law_mixing_can_be_undone, UnaryOperation,
};
use crate::meaning::{carries, lemma_carries, refuses};
use crate::number_laws::{are_digits_of, lemma_decimal};
use crate::text::decimal;
use crate::time::{monotonic_milliseconds, unix_milliseconds};

verus! {

/// The bits of a `float`: a sign, eight bits of exponent, and the fraction. The largest
/// exponent is that of the infinities, where the fraction is zero, and of what is no
/// number, where it is not.
pub proof fn law_float_classes(bits: u32, operation: i32, result: i8)
    requires
        call_ensures(aster_rt_math_predicate_float, (bits, operation), result),
    ensures
        ({
            let exponent = bits / 0x80_0000 % 0x100;
            let fraction = bits % 0x80_0000;
            &&& result == 0 || result == 1
            &&& operation == 0 ==> (result == 1 <==> exponent == 0xff && fraction != 0)
            &&& operation == 1 ==> (result == 1 <==> exponent == 0xff && fraction == 0)
            &&& operation == 2 ==> (result == 1 <==> exponent != 0xff)
            &&& !(0 <= operation <= 2) ==> result == 0
        }),
{
    assert((bits >> 23) & 0xff == bits / 0x80_0000 % 0x100) by (bit_vector);
    assert(bits & 0x7f_ffff == bits % 0x80_0000) by (bit_vector);
}

/// The bits of a `double`: a sign, eleven bits of exponent, and the fraction.
pub proof fn law_double_classes(bits: u64, operation: i32, result: i8)
    requires
        call_ensures(aster_rt_math_predicate_double, (bits, operation), result),
    ensures
        ({
            let exponent = bits / 0x10_0000_0000_0000 % 0x800;
            let fraction = bits % 0x10_0000_0000_0000;
            &&& result == 0 || result == 1
            &&& operation == 0 ==> (result == 1 <==> exponent == 0x7ff && fraction != 0)
            &&& operation == 1 ==> (result == 1 <==> exponent == 0x7ff && fraction == 0)
            &&& operation == 2 ==> (result == 1 <==> exponent != 0x7ff)
            &&& !(0 <= operation <= 2) ==> result == 0
        }),
{
    assert((bits >> 52) & 0x7ff == bits / 0x10_0000_0000_0000 % 0x800) by (bit_vector);
    assert(bits & 0xf_ffff_ffff_ffff == bits % 0x10_0000_0000_0000) by (bit_vector);
}

/// Different states of the generator give different numbers.
pub proof fn law_mixing_tells_states_apart(a: u64, b: u64, mixed_a: u64, mixed_b: u64)
    requires
        call_ensures(aster_rt_random_mix, (a,), mixed_a),
        call_ensures(aster_rt_random_mix, (b,), mixed_b),
    ensures
        mixed_a == mixed_b <==> a == b,
{
    law_mixing_can_be_undone(a);
    law_mixing_can_be_undone(b);
}

/// A clock shows how many milliseconds have passed, up to the largest number it can show.
/// The wall clock shows what is left until its start as a negative number.
pub proof fn law_clocks(passed: u128, reading: i64, wall: i64, before: i64)
    requires
        call_ensures(monotonic_milliseconds, (passed,), reading),
        call_ensures(unix_milliseconds, (Ok::<u128, u128>(passed),), wall),
        call_ensures(unix_milliseconds, (Err::<u128, u128>(passed),), before),
    ensures
        passed <= i64::MAX ==> reading == passed && wall == passed && before == -passed,
        passed > i64::MAX ==> reading == i64::MAX && wall == i64::MAX && before == -i64::MAX,
{
}

/// The number under which a call names an operation.
pub open spec fn number_of_operation(operation: UnaryOperation) -> i32 {
    match operation {
        UnaryOperation::SquareRoot => 0,
        UnaryOperation::Floor => 1,
        UnaryOperation::Ceiling => 2,
        UnaryOperation::RoundTiesEven => 3,
        UnaryOperation::Sine => 4,
        UnaryOperation::Cosine => 5,
        UnaryOperation::Tangent => 6,
        UnaryOperation::Truncate => 7,
        UnaryOperation::Exponential => 8,
        UnaryOperation::NaturalLogarithm => 9,
        UnaryOperation::BinaryLogarithm => 10,
        UnaryOperation::DecimalLogarithm => 11,
        UnaryOperation::ArcSine => 12,
        UnaryOperation::ArcCosine => 13,
        UnaryOperation::ArcTangent => 14,
        UnaryOperation::HyperbolicSine => 15,
        UnaryOperation::HyperbolicCosine => 16,
        UnaryOperation::HyperbolicTangent => 17,
    }
}

/// Every operation is read back from its number, and no other number is read as one.
pub proof fn law_operations_have_numbers(code: i32, operation: Option<UnaryOperation>)
    requires
        call_ensures(UnaryOperation::from_abi, (code,), operation),
    ensures
        operation matches Some(known) ==> number_of_operation(known) == code,
        operation is None <==> !(0 <= code < 18),
{
}

/// What a failed comparison reports: both texts, the expected one first. An earlier
/// report stays.
pub proof fn law_assert_equal(
    context: Option<&mut ExecutionContext>,
    expected: Option<&[u8]>,
    actual: Option<&[u8]>,
    wanted: Seq<char>,
    got: Seq<char>,
)
    requires
        context matches Some(c) && c.wf(),
        carries(expected, wanted),
        carries(actual, got),
        call_ensures(aster_rt_assert_equal, (context, expected, actual), ()),
    ensures
        refuses(*context->0, *final(context->0)),
        context->0.error_text() is None ==> final(context->0).error_text() == Some(
            "assertion failed: values are not equal\nexpected: "@ + wanted + "\nactual:   "@ + got,
        ),
{
    lemma_carries(expected, wanted);
    lemma_carries(actual, got);
}

/// Every kind of failure of integer arithmetic has its report. An earlier one stays.
pub proof fn law_integer_arithmetic_errors(context: Option<&mut ExecutionContext>, code: i32)
    requires
        context matches Some(c) && c.wf(),
        call_ensures(aster_rt_integer_arithmetic_error, (context, code), ()),
    ensures
        refuses(*context->0, *final(context->0)),
        context->0.error_text() is None ==> {
            let text = final(context->0).error_text();
            &&& code == 0 ==> text == Some("integer division by zero"@)
            &&& code == 1 ==> text == Some("integer remainder by zero"@)
            &&& code == 2 ==> text == Some("signed integer division overflow"@)
            &&& code == 3 ==> text == Some("signed integer remainder overflow"@)
            &&& !(0 <= code <= 3) ==> text == Some("unknown integer arithmetic error"@)
        },
{
}

/// Every value outside the domain of an operation has its report. An earlier one stays.
pub proof fn law_domain_errors(context: Option<&mut ExecutionContext>, code: i32)
    requires
        context matches Some(c) && c.wf(),
        call_ensures(aster_rt_math_domain_error, (context, code), ()),
    ensures
        refuses(*context->0, *final(context->0)),
        context->0.error_text() is None ==> {
            let text = final(context->0).error_text();
            &&& code == 0 ==> text == Some(
                "Math.Abs cannot represent the magnitude of the minimum int value"@,
            )
            &&& code == 1 ==> text == Some(
                "Math.Abs cannot represent the magnitude of the minimum long value"@,
            )
            &&& code == 2 ==> text == Some(
                "Math.Clamp requires min to be less than or equal to max"@,
            )
            &&& code == 3 ==> text == Some("assertion failed: expected condition to be true"@)
            &&& code == 4 ==> text == Some("assertion failed: expected condition to be false"@)
            &&& code == 5 ==> text == Some("assertion failed: values are not equal"@)
            &&& code == 6 ==> text == Some("Math.Sign does not accept NaN"@)
            &&& code == 7 ==> text == Some("collection range is outside the valid bounds"@)
            &&& code == 8 ==> text == Some(
                "random range requires minInclusive to be less than maxExclusive"@,
            )
            &&& !(0 <= code <= 8) ==> text == Some("unknown runtime error"@)
        },
{
}

/// The failure of a native function is reported with its number in decimal digits.
pub proof fn law_foreign_errors(
    context: Option<&mut ExecutionContext>,
    kind: i32,
    value: i64,
    magnitude: int,
)
    requires
        context matches Some(c) && c.wf() && c.error_text() is None,
        magnitude >= 0,
        value == magnitude || value == -magnitude,
        call_ensures(aster_rt_foreign_error, (context, kind, value), ()),
    ensures
        refuses(*context->0, *final(context->0)),
        0 <= kind <= 2 ==> exists|digits: Seq<char>|
            {
                let head = if kind == 0 {
                    "foreign call failed with native status "@
                } else if kind == 1 {
                    "foreign bool result must be 0 or 1, found "@
                } else {
                    "foreign char result is not a Unicode scalar: "@
                };
                &&& #[trigger] are_digits_of(digits, magnitude)
                &&& final(context->0).error_text() == Some(
                    if value < 0 {
                        head + (seq!['-'] + digits)
                    } else {
                        head + digits
                    },
                )
            },
        !(0 <= kind <= 2) ==> final(context->0).error_text() == Some(
            "invalid foreign runtime state"@,
        ),
{
    lemma_decimal(magnitude as nat);
    assert(are_digits_of(decimal(magnitude as nat), magnitude));
}

/// Two signatures are the same: the same types, one by one, and the same result.
pub open spec fn same_signature(a: ForeignSignature, b: ForeignSignature) -> bool {
    a.parameter_types() == b.parameter_types() && a.result_type() == b.result_type()
}

/// A function that was registered is found under its name and its exact signature, and
/// what is found under any other is what was found before.
pub proof fn law_registered_functions_are_found(
    registry: &mut ForeignRegistry,
    name: &str,
    signature: ForeignSignature,
    address: usize,
    result: Result<(), ForeignRegistryError>,
    asked: &str,
    asked_signature: ForeignSignature,
    earlier: Result<usize, ForeignRegistryError>,
    later: Result<usize, ForeignRegistryError>,
)
    requires
        call_ensures(ForeignRegistry::register, (registry, name, signature, address), result),
        call_ensures(
            ForeignRegistry::resolve_address,
            (registry, asked, &asked_signature),
            earlier,
        ),
        call_ensures(
            ForeignRegistry::resolve_address,
            (final(registry), asked, &asked_signature),
            later,
        ),
    ensures
        ({
            let same = asked@ == name@ && same_signature(asked_signature, signature);
            &&& result is Ok && same ==> earlier is Err && (later matches Ok(found) && found
                == address)
            &&& result is Err || !same ==> {
                &&& later is Ok <==> earlier is Ok
                &&& later matches Ok(found) ==> found == earlier->Ok_0
            }
            &&& same && earlier is Ok ==> result is Err
            &&& same && earlier is Err && address != 0 && name@.len() > 0 ==> result is Ok
            &&& address == 0 || name@.len() == 0 ==> result is Err
        }),
{
}

} // verus!
