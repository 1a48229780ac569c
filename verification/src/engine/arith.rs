//! Integer arithmetic on stack words: 64-bit two's complement, wrapping.

use crate::engine::opcode_handler::{FloatWidth, IntOp, IntUnaryOp};
use vstd::arithmetic::div_mod::lemma_fundamental_div_mod;
use vstd::prelude::*;

verus! {

/// Two to the power 64.
pub open spec fn word_range() -> int {
    0x1_0000_0000_0000_0000
}

/// The word that holds `value` modulo two to the power 64.
pub open spec fn word_of(value: int) -> u64 {
    (value % word_range()) as u64
}

/// The integer that `word` stands for in two's complement.
pub open spec fn signed(word: u64) -> int {
    if word < 0x8000_0000_0000_0000 {
        word as int
    } else {
        word - word_range()
    }
}

/// The magnitude of `value`.
pub open spec fn magnitude(value: int) -> int {
    if value < 0 {
        -value
    } else {
        value
    }
}

/// The quotient of `dividend` by `divisor`, rounded toward zero.
pub open spec fn truncated_quotient(dividend: int, divisor: int) -> int
    recommends
        divisor != 0,
{
    if (dividend < 0) == (divisor < 0) {
        magnitude(dividend) / magnitude(divisor)
    } else {
        -(magnitude(dividend) / magnitude(divisor))
    }
}

/// The remainder that goes with [`truncated_quotient`]; it has the sign of the
/// dividend.
pub open spec fn truncated_remainder(dividend: int, divisor: int) -> int
    recommends
        divisor != 0,
{
    dividend - divisor * truncated_quotient(dividend, divisor)
}

/// `word` shifted right by `count` places with its sign bit copied in from the
/// left.
pub open spec fn arithmetic_shift_right(word: u64, count: u64) -> u64
    recommends
        count < 64,
{
    if word < 0x8000_0000_0000_0000 {
        word >> count
    } else {
        !((!word) >> count)
    }
}

/// The result of an integer instruction on `a` and `b`, where `b` was on top
/// of the stack. Division and remainder by zero have none. Shift counts are
/// taken modulo 64.
pub open spec fn int_binary(op: IntOp, a: u64, b: u64) -> Option<u64> {
    match op {
        IntOp::Add => Some(word_of(a + b)),
        IntOp::Sub => Some(word_of(a - b)),
        IntOp::Mul => Some(word_of(a * b)),
        IntOp::Div => if b == 0 {
            None
        } else {
            Some(word_of(truncated_quotient(signed(a), signed(b))))
        },
        IntOp::Rem => if b == 0 {
            None
        } else {
            Some(word_of(truncated_remainder(signed(a), signed(b))))
        },
        IntOp::Shl => Some(a << (b % 64)),
        IntOp::Shr => Some(a >> (b % 64)),
        IntOp::AShr => Some(arithmetic_shift_right(a, b % 64)),
        IntOp::And => Some(a & b),
        IntOp::Or => Some(a | b),
        IntOp::Xor => Some(a ^ b),
    }
}

/// The result of an integer instruction on one operand.
pub open spec fn int_unary(op: IntUnaryOp, a: u64) -> u64 {
    match op {
        IntUnaryOp::Neg => word_of(-signed(a)),
        IntUnaryOp::Not => !a,
    }
}

/// The word a floating-point instruction hands to the arithmetic and takes
/// back from it: for single precision the low 32 bits, the rest zero.
pub open spec fn float_word(width: FloatWidth, word: u64) -> u64 {
    match width {
        FloatWidth::Single => word & 0xFFFF_FFFF,
        FloatWidth::Double => word,
    }
}

/// The magnitude of the integer that `word` stands for.
fn magnitude_of(word: u64) -> (size: u64)
    ensures
        size == magnitude(signed(word)),
{
    if word < 0x8000_0000_0000_0000 {
        word
    } else {
        0u64.wrapping_sub(word)
    }
}

/// The word for minus `size`.
fn negated(size: u64) -> (word: u64)
    ensures
        word == word_of(-(size as int)),
{
    0u64.wrapping_sub(size)
}

/// Computes an integer instruction with two operands; `None` for a division
/// or remainder by zero.
pub fn apply_int_binary(op: IntOp, a: u64, b: u64) -> (result: Option<u64>)
    ensures
        result == int_binary(op, a, b),
{
    match op {
        IntOp::Add => Some(a.wrapping_add(b)),
        IntOp::Sub => Some(a.wrapping_sub(b)),
        IntOp::Mul => Some(a.wrapping_mul(b)),
        IntOp::Div => {
            if b == 0 {
                return None;
            }
            let quotient = magnitude_of(a) / magnitude_of(b);
            if (a < 0x8000_0000_0000_0000) == (b < 0x8000_0000_0000_0000) {
                Some(quotient)
            } else {
                Some(negated(quotient))
            }
        },
        IntOp::Rem => {
            if b == 0 {
                return None;
            }
            let size = magnitude_of(a);
            let divisor = magnitude_of(b);
            let remainder = size % divisor;
            proof {
                lemma_fundamental_div_mod(size as int, divisor as int);
                let q = size as int / divisor as int;
                assert(divisor * q == q * divisor) by (nonlinear_arith);
                assert((-(divisor as int)) * q == -(divisor * q)) by (nonlinear_arith);
                assert((-(divisor as int)) * (-q) == divisor * q) by (nonlinear_arith);
                assert((divisor as int) * (-q) == -(divisor * q)) by (nonlinear_arith);
            }
            if a < 0x8000_0000_0000_0000 {
                Some(remainder)
            } else {
                Some(negated(remainder))
            }
        },
        IntOp::Shl => Some(a << (b % 64)),
        IntOp::Shr => Some(a >> (b % 64)),
        IntOp::AShr => {
            let count = b % 64;
            if a < 0x8000_0000_0000_0000 {
                Some(a >> count)
            } else {
                Some(!((!a) >> count))
            }
        },
        IntOp::And => Some(a & b),
        IntOp::Or => Some(a | b),
        IntOp::Xor => Some(a ^ b),
    }
}

/// Computes an integer instruction with one operand.
pub fn apply_int_unary(op: IntUnaryOp, a: u64) -> (result: u64)
    ensures
        result == int_unary(op, a),
{
    match op {
        IntUnaryOp::Neg => 0u64.wrapping_sub(a),
        IntUnaryOp::Not => !a,
    }
}

/// Narrows `word` to what a floating-point instruction of `width` works on.
pub fn narrow_float(width: FloatWidth, word: u64) -> (narrowed: u64)
    ensures
        narrowed == float_word(width, word),
{
    match width {
        FloatWidth::Single => word & 0xFFFF_FFFF,
        FloatWidth::Double => word,
    }
}

} // verus!
