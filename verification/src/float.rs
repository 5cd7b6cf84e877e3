//! Opaque IEEE-754 binary64 values.
//!
//! The interpreter stores a float as its 64-bit pattern and never computes
//! with it directly: arithmetic, comparison, parsing and formatting of
//! floats are performed by the host (see [`crate::host::FloatHost`]).
//! Negation is the one exception: flipping the sign bit is exact.

use vstd::prelude::*;

verus! {

/// An IEEE-754 binary64 value, held as its bit pattern.
#[derive(Clone, Copy, PartialEq, Eq, Structural, Debug)]
pub struct FloatVal {
    pub bits: u64,
}

/// The sign-bit mask of a binary64 value.
pub const SIGN_BIT: u64 = 0x8000_0000_0000_0000;

impl FloatVal {
    /// Positive zero: all bits clear.
    pub fn zero() -> (r: FloatVal)
        ensures
            r.bits == 0,
    {
        FloatVal { bits: 0 }
    }

    /// IEEE-754 negation: the sign bit flipped, every other bit kept.
    pub fn negate(&self) -> (r: FloatVal)
        ensures
            r.bits == self.bits ^ SIGN_BIT,
    {
        FloatVal { bits: self.bits ^ SIGN_BIT }
    }
}

impl Default for FloatVal {
    /// The default float is positive zero.
    fn default() -> (r: FloatVal)
        ensures
            r.bits == 0,
    {
        FloatVal { bits: 0 }
    }
}

/// Unary float functions computed by the host.
#[derive(Clone, Copy, PartialEq, Eq, Structural, Debug)]
pub enum Float1Op {
    Sin,
    Cos,
    Exp,
    Log,
    Sqrt,
    Atan,
}

/// Binary float functions computed by the host.
#[derive(Clone, Copy, PartialEq, Eq, Structural, Debug)]
pub enum Float2Op {
    Atan2,
    Pow,
}

/// Float comparison predicates computed by the host.
#[derive(Clone, Copy, PartialEq, Eq, Structural, Debug)]
pub enum FloatCmpOp {
    Lt,
    Gt,
    Le,
    Ge,
    Eq,
}

} // verus!
