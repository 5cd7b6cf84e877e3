//! What the embedding program supplies: floating-point arithmetic and the
//! raw reads and writes.
//!
//! Verus does not reason about floats or perform I/O, so the interpreter is
//! generic over a host that does both. The methods carry no contracts: the
//! interpreter's own contracts state what holds of every outcome the host
//! can produce. An empty path names the standard input.

use vstd::prelude::*;
use crate::float::{Float1Op, Float2Op, FloatCmpOp, FloatVal};

verus! {

/// One read from an input source.
pub enum ReadOutcome {
    /// A non-empty chunk of bytes.
    Data(Vec<u8>),
    /// Clean end of the source.
    End,
    /// A read failure; the source is unusable from here on.
    Fail,
}

/// Floating-point work delegated to the host.
pub trait FloatHost {
    /// IEEE-754 addition.
    fn f_add(&mut self, a: FloatVal, b: FloatVal) -> FloatVal;

    /// IEEE-754 subtraction.
    fn f_sub(&mut self, a: FloatVal, b: FloatVal) -> FloatVal;

    /// IEEE-754 multiplication.
    fn f_mul(&mut self, a: FloatVal, b: FloatVal) -> FloatVal;

    /// IEEE-754 division.
    fn f_div(&mut self, a: FloatVal, b: FloatVal) -> FloatVal;

    /// IEEE-754 remainder.
    fn f_mod(&mut self, a: FloatVal, b: FloatVal) -> FloatVal;

    /// A unary float function.
    fn f1(&mut self, op: Float1Op, x: FloatVal) -> FloatVal;

    /// A binary float function.
    fn f2(&mut self, op: Float2Op, a: FloatVal, b: FloatVal) -> FloatVal;

    /// An IEEE-754 comparison.
    fn f_cmp(&mut self, op: FloatCmpOp, a: FloatVal, b: FloatVal) -> bool;

    /// The float value of an integer.
    fn int_to_float(&mut self, i: i64) -> FloatVal;

    /// The integer value of a float, truncated toward zero.
    fn float_to_int(&mut self, x: FloatVal) -> i64;

    /// The float value of a float-shaped text (the scanner in
    /// `convert` guarantees the shape).
    fn parse_float(&mut self, text: &Vec<u8>) -> FloatVal;

    /// The shortest text that reads back as the same float.
    fn format_float(&mut self, x: FloatVal) -> Vec<u8>;

    /// The text of a float under a `printf` conversion (one of
    /// `e E f g G`), a precision when one was given, and the `+`, space
    /// and `#` flags. Width and padding are the caller's task.
    fn format_float_conv(
        &mut self,
        conv: u8,
        has_prec: bool,
        prec: usize,
        plus: bool,
        space: bool,
        alt: bool,
        x: FloatVal,
    ) -> Vec<u8>;

    /// A float uniform in `[0, 1)` built from 64 random bits.
    fn rand_unit(&mut self, bits: u64) -> FloatVal;
}

/// Reads and writes delegated to the host.
pub trait IoHost {
    /// Open a source for reading; `None` when it cannot be opened. The
    /// empty path is the standard input.
    fn open_read(&mut self, path: &Vec<u8>) -> Option<u64>;

    /// Read the next chunk of a source.
    fn read_chunk(&mut self, h: u64) -> ReadOutcome;

    /// Release a source.
    fn close_read(&mut self, h: u64);

    /// Open a sink for writing, truncating or appending; `None` when it
    /// cannot be opened. The empty path is the standard output.
    fn open_write(&mut self, path: &Vec<u8>, append: bool) -> Option<u64>;

    /// Write to a sink; `false` on a write error (the broken-pipe case).
    fn write(&mut self, h: u64, data: &Vec<u8>) -> bool;

    /// Write to the standard output; `false` on a write error.
    fn write_stdout(&mut self, data: &Vec<u8>) -> bool;

    /// Flush and release a sink; `false` when flushing fails.
    fn close_write(&mut self, h: u64) -> bool;
}

} // verus!
