//! The meaning of programs: what value a program returns.
//!
//! Values are those of the target's 32-bit registers, as signed integers:
//! constants are taken modulo 2^32, negation wraps around, and complement
//! flips every bit. The syntax tree, TACKY and assembly are each given an
//! evaluator over these values, and the laws of the lowering passes state
//! that they agree.

use vstd::prelude::*;

verus! {

/// `x` taken modulo 2^32, as a signed 32-bit value.
pub open spec fn wrap32(x: int) -> int {
    (x + 0x8000_0000) % 0x1_0000_0000 - 0x8000_0000
}

/// The value of an integer constant.
pub open spec fn constant_value(n: i64) -> int {
    wrap32(n as int)
}

/// Bitwise complement.
pub open spec fn complement_value(v: int) -> int {
    wrap32(-v - 1)
}

/// Two's-complement negation.
pub open spec fn negate_value(v: int) -> int {
    wrap32(-v)
}

} // verus!
