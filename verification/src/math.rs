//! Reports about arithmetic and assertions, and the mixing step of the random
//! number generator.

use vstd::arithmetic::div_mod::{lemma_fundamental_div_mod_converse, lemma_mul_mod_noop_left};
use vstd::prelude::*;

use crate::context::ExecutionContext;
use crate::string::{decode_str, text_of};

verus! {

/// The low 64 bits of a product.
pub open spec fn wrapped_product(a: u64, b: u64) -> u64 {
    ((a * b) % 0x1_0000_0000_0000_0000) as u64
}

/// The number that a state of the generator gives: the output permutation of
/// SplitMix64.
pub open spec fn mixed(value: u64) -> u64 {
    let first = wrapped_product(value ^ (value >> 30), 0xbf58_476d_1ce4_e5b9);
    let second = wrapped_product(first ^ (first >> 27), 0x94d0_49bb_1331_11eb);
    second ^ (second >> 31)
}

/// Mixes a state of the generator.
pub fn aster_rt_random_mix(value: u64) -> (result: u64)
    ensures
        result == mixed(value),
{
    let first: u64 = (value ^ (value >> 30)).wrapping_mul(0xbf58_476d_1ce4_e5b9);
    let second: u64 = (first ^ (first >> 27)).wrapping_mul(0x94d0_49bb_1331_11eb);
    second ^ (second >> 31)
}

/// Multiplying by an odd number can be undone.
proof fn lemma_product_undone(a: u64, factor: u64, inverse: u64, quotient: int)
    requires
        factor * inverse == quotient * 0x1_0000_0000_0000_0000 + 1,
    ensures
        wrapped_product(wrapped_product(a, factor), inverse) == a,
{
    let m: int = 0x1_0000_0000_0000_0000;
    let p: int = a * factor;
    lemma_mul_mod_noop_left(p, inverse as int, m);
    assert(p * inverse == a * (factor * inverse)) by (nonlinear_arith)
        requires
            p == a * factor,
    ;
    assert(a * (quotient * m + 1) == (a * quotient) * m + a) by (nonlinear_arith);
    lemma_fundamental_div_mod_converse(p * inverse, m, a * quotient, a as int);
    assert(0 <= p % m < m);
}

/// The state that a number was mixed from.
pub open spec fn unmixed(result: u64) -> u64 {
    let second = result ^ (result >> 31) ^ (result >> 62);
    let b = wrapped_product(second, 0x3196_42b2_d24d_8ec3);
    let first = b ^ (b >> 27) ^ (b >> 54);
    let a = wrapped_product(first, 0x96de_1b17_3f11_9089);
    a ^ (a >> 30) ^ (a >> 60)
}

/// Mixing is a permutation: no two states give the same number.
pub proof fn law_mixing_can_be_undone(value: u64)
    ensures
        unmixed(mixed(value)) == value,
{
    let a = value ^ (value >> 30);
    let first = wrapped_product(a, 0xbf58_476d_1ce4_e5b9);
    let b = first ^ (first >> 27);
    let second = wrapped_product(b, 0x94d0_49bb_1331_11eb);
    let result = second ^ (second >> 31);
    assert(result ^ (result >> 31) ^ (result >> 62) == second) by (bit_vector)
        requires
            result == second ^ (second >> 31),
    ;
    lemma_product_undone(b, 0x94d0_49bb_1331_11eb, 0x3196_42b2_d24d_8ec3, 0x1cd3_36ed_a85f_1453);
    assert(b ^ (b >> 27) ^ (b >> 54) == first) by (bit_vector)
        requires
            b == first ^ (first >> 27),
    ;
    lemma_product_undone(a, 0xbf58_476d_1ce4_e5b9, 0x96de_1b17_3f11_9089, 0x70c3_bca7_8f27_f46c);
    assert(a ^ (a >> 30) ^ (a >> 60) == value) by (bit_vector)
        requires
            a == value ^ (value >> 30),
    ;
}

/// The report about values that should have been equal.
pub open spec fn unequal_text(expected: Option<Seq<char>>, actual: Option<Seq<char>>) -> Seq<char> {
    match (expected, actual) {
        (Some(expected), Some(actual)) => "assertion failed: values are not equal\nexpected: "@
            + expected + "\nactual:   "@ + actual,
        _ => "assertion failed: values are not equal"@,
    }
}

/// Records that two values should have been equal.
pub fn aster_rt_assert_equal(
    context: Option<&mut ExecutionContext>,
    expected: Option<&[u8]>,
    actual: Option<&[u8]>,
)
    requires
        context matches Some(c) ==> c.wf(),
    ensures
        context matches Some(c) ==> {
            &&& final(c).wf()
            &&& final(c).only_failed(*c, unequal_text(text_of(expected), text_of(actual)))
        },
{
    if let Some(context) = context {
        match (decode_str(expected), decode_str(actual)) {
            (Some(expected), Some(actual)) => {
                let mut message: String =
                    "assertion failed: values are not equal\nexpected: ".to_owned();
                message.append(expected.as_str());
                message.append("\nactual:   ");
                message.append(actual.as_str());
                context.fail(message);
            },
            _ => {
                context.fail_with("assertion failed: values are not equal");
            },
        }
    }
}

/// The report that a code of the library stands for.
pub open spec fn domain_text(code: i32) -> Seq<char> {
    if code == 0 {
        "Math.Abs cannot represent the magnitude of the minimum int value"@
    } else if code == 1 {
        "Math.Abs cannot represent the magnitude of the minimum long value"@
    } else if code == 2 {
        "Math.Clamp requires min to be less than or equal to max"@
    } else if code == 3 {
        "assertion failed: expected condition to be true"@
    } else if code == 4 {
        "assertion failed: expected condition to be false"@
    } else if code == 5 {
        "assertion failed: values are not equal"@
    } else if code == 6 {
        "Math.Sign does not accept NaN"@
    } else if code == 7 {
        "collection range is outside the valid bounds"@
    } else if code == 8 {
        "random range requires minInclusive to be less than maxExclusive"@
    } else {
        "unknown runtime error"@
    }
}

/// Records that a value is outside the domain of an operation.
pub fn aster_rt_math_domain_error(context: Option<&mut ExecutionContext>, code: i32)
    requires
        context matches Some(c) ==> c.wf(),
    ensures
        context matches Some(c) ==> final(c).wf() && final(c).only_failed(*c, domain_text(code)),
{
    if let Some(context) = context {
        let message: &str = if code == 0 {
            "Math.Abs cannot represent the magnitude of the minimum int value"
        } else if code == 1 {
            "Math.Abs cannot represent the magnitude of the minimum long value"
        } else if code == 2 {
            "Math.Clamp requires min to be less than or equal to max"
        } else if code == 3 {
            "assertion failed: expected condition to be true"
        } else if code == 4 {
            "assertion failed: expected condition to be false"
        } else if code == 5 {
            "assertion failed: values are not equal"
        } else if code == 6 {
            "Math.Sign does not accept NaN"
        } else if code == 7 {
            "collection range is outside the valid bounds"
        } else if code == 8 {
            "random range requires minInclusive to be less than maxExclusive"
        } else {
            "unknown runtime error"
        };
        context.fail_with(message);
    }
}

/// The report about integer arithmetic that a code stands for.
pub open spec fn arithmetic_text(code: i32) -> Seq<char> {
    if code == 0 {
        "integer division by zero"@
    } else if code == 1 {
        "integer remainder by zero"@
    } else if code == 2 {
        "signed integer division overflow"@
    } else if code == 3 {
        "signed integer remainder overflow"@
    } else {
        "unknown integer arithmetic error"@
    }
}

/// Records that integer arithmetic has no result.
pub fn aster_rt_integer_arithmetic_error(context: Option<&mut ExecutionContext>, code: i32)
    requires
        context matches Some(c) ==> c.wf(),
    ensures
        context matches Some(c) ==> final(c).wf() && final(c).only_failed(
            *c,
            arithmetic_text(code),
        ),
{
    if let Some(context) = context {
        let message: &str = if code == 0 {
            "integer division by zero"
        } else if code == 1 {
            "integer remainder by zero"
        } else if code == 2 {
            "signed integer division overflow"
        } else if code == 3 {
            "signed integer remainder overflow"
        } else {
            "unknown integer arithmetic error"
        };
        context.fail_with(message);
    }
}

/// A floating-point operation on one value.
#[derive(Clone, Copy, Debug, PartialEq, Eq, Structural)]
pub enum UnaryOperation {
    SquareRoot,
    Floor,
    Ceiling,
    RoundTiesEven,
    Sine,
    Cosine,
    Tangent,
    Truncate,
    Exponential,
    NaturalLogarithm,
    BinaryLogarithm,
    DecimalLogarithm,
    ArcSine,
    ArcCosine,
    ArcTangent,
    HyperbolicSine,
    HyperbolicCosine,
    HyperbolicTangent,
}

/// The operation that a code stands for.
pub open spec fn unary_operation(code: i32) -> Option<UnaryOperation> {
    if code == 0 {
        Some(UnaryOperation::SquareRoot)
    } else if code == 1 {
        Some(UnaryOperation::Floor)
    } else if code == 2 {
        Some(UnaryOperation::Ceiling)
    } else if code == 3 {
        Some(UnaryOperation::RoundTiesEven)
    } else if code == 4 {
        Some(UnaryOperation::Sine)
    } else if code == 5 {
        Some(UnaryOperation::Cosine)
    } else if code == 6 {
        Some(UnaryOperation::Tangent)
    } else if code == 7 {
        Some(UnaryOperation::Truncate)
    } else if code == 8 {
        Some(UnaryOperation::Exponential)
    } else if code == 9 {
        Some(UnaryOperation::NaturalLogarithm)
    } else if code == 10 {
        Some(UnaryOperation::BinaryLogarithm)
    } else if code == 11 {
        Some(UnaryOperation::DecimalLogarithm)
    } else if code == 12 {
        Some(UnaryOperation::ArcSine)
    } else if code == 13 {
        Some(UnaryOperation::ArcCosine)
    } else if code == 14 {
        Some(UnaryOperation::ArcTangent)
    } else if code == 15 {
        Some(UnaryOperation::HyperbolicSine)
    } else if code == 16 {
        Some(UnaryOperation::HyperbolicCosine)
    } else if code == 17 {
        Some(UnaryOperation::HyperbolicTangent)
    } else {
        None
    }
}

impl UnaryOperation {
    /// Reads the code of an operation. A code that stands for none has no result.
    pub fn from_abi(code: i32) -> (operation: Option<Self>)
        ensures
            operation == unary_operation(code),
    {
        if code == 0 {
            Some(UnaryOperation::SquareRoot)
        } else if code == 1 {
            Some(UnaryOperation::Floor)
        } else if code == 2 {
            Some(UnaryOperation::Ceiling)
        } else if code == 3 {
            Some(UnaryOperation::RoundTiesEven)
        } else if code == 4 {
            Some(UnaryOperation::Sine)
        } else if code == 5 {
            Some(UnaryOperation::Cosine)
        } else if code == 6 {
            Some(UnaryOperation::Tangent)
        } else if code == 7 {
            Some(UnaryOperation::Truncate)
        } else if code == 8 {
            Some(UnaryOperation::Exponential)
        } else if code == 9 {
            Some(UnaryOperation::NaturalLogarithm)
        } else if code == 10 {
            Some(UnaryOperation::BinaryLogarithm)
        } else if code == 11 {
            Some(UnaryOperation::DecimalLogarithm)
        } else if code == 12 {
            Some(UnaryOperation::ArcSine)
        } else if code == 13 {
            Some(UnaryOperation::ArcCosine)
        } else if code == 14 {
            Some(UnaryOperation::ArcTangent)
        } else if code == 15 {
            Some(UnaryOperation::HyperbolicSine)
        } else if code == 16 {
            Some(UnaryOperation::HyperbolicCosine)
        } else if code == 17 {
            Some(UnaryOperation::HyperbolicTangent)
        } else {
            None
        }
    }
}

/// Whether the bits of a `float` are those of no number (0), of an infinity (1),
/// or of a finite number (2).
pub open spec fn float_predicate(bits: u32, operation: i32) -> bool {
    let special = (bits >> 23) & 0xff == 0xff;
    let fraction = bits & 0x7f_ffff;
    if operation == 0 {
        special && fraction != 0
    } else if operation == 1 {
        special && fraction == 0
    } else {
        operation == 2 && !special
    }
}

/// Classifies the bits of a `float`.
pub fn aster_rt_math_predicate_float(bits: u32, operation: i32) -> (result: i8)
    ensures
        result == if float_predicate(bits, operation) {
            1i8
        } else {
            0i8
        },
{
    let special: bool = (bits >> 23) & 0xff == 0xff;
    let fraction: u32 = bits & 0x7f_ffff;
    let holds: bool = if operation == 0 {
        special && fraction != 0
    } else if operation == 1 {
        special && fraction == 0
    } else {
        operation == 2 && !special
    };
    if holds {
        1
    } else {
        0
    }
}

/// Whether the bits of a `double` are those of no number (0), of an infinity (1),
/// or of a finite number (2).
pub open spec fn double_predicate(bits: u64, operation: i32) -> bool {
    let special = (bits >> 52) & 0x7ff == 0x7ff;
    let fraction = bits & 0xf_ffff_ffff_ffff;
    if operation == 0 {
        special && fraction != 0
    } else if operation == 1 {
        special && fraction == 0
    } else {
        operation == 2 && !special
    }
}

/// Classifies the bits of a `double`.
pub fn aster_rt_math_predicate_double(bits: u64, operation: i32) -> (result: i8)
    ensures
        result == if double_predicate(bits, operation) {
            1i8
        } else {
            0i8
        },
{
    let special: bool = (bits >> 52) & 0x7ff == 0x7ff;
    let fraction: u64 = bits & 0xf_ffff_ffff_ffff;
    let holds: bool = if operation == 0 {
        special && fraction != 0
    } else if operation == 1 {
        special && fraction == 0
    } else {
        operation == 2 && !special
    };
    if holds {
        1
    } else {
        0
    }
}

/// Every value is exactly one of these: no number, an infinity, a finite number.
pub proof fn law_every_value_has_one_class(float: u32, double: u64)
    ensures
        !(float_predicate(float, 0) && float_predicate(float, 1)),
        float_predicate(float, 2) == !(float_predicate(float, 0) || float_predicate(float, 1)),
        !(double_predicate(double, 0) && double_predicate(double, 1)),
        double_predicate(double, 2) == !(double_predicate(double, 0) || double_predicate(
            double,
            1,
        )),
{
}

} // verus!
