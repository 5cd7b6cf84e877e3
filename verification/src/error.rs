//! Runtime errors of the virtual machine.
//!
//! Arithmetic, comparison and map opcodes are total. Errors arise only from
//! regex compilation, typed access to the wrong kind of built-in variable,
//! closing a sink, exhausted iterators and the reserved slot instructions.
//! A failed write is not an error: it ends the program successfully
//! (the broken-pipe policy).

use vstd::prelude::*;

verus! {

/// A recoverable runtime error that propagates out of the dispatch loop and
/// terminates the program with a nonzero status.
#[derive(Clone, Copy, PartialEq, Eq, Structural, Debug)]
pub enum VmError {
    /// A pattern handed to a regex opcode does not compile.
    RegexSyntax,
    /// A built-in variable was loaded or stored through an accessor of the
    /// wrong value type.
    WrongVarType,
    /// Closing an output sink reported a failure.
    CloseFailed,
    /// `IterGetNext` on an exhausted iterator. The compiler is required to
    /// guard every `IterGetNext` with `IterHasNext`, so a conforming program
    /// never sees this.
    IterExhausted,
    /// A reserved slot instruction. The slot family is declared in the
    /// instruction set but not implemented.
    UnimplementedSlot,
    /// A field access `$k` with negative `k`.
    NegativeField,
    /// `Pop` on an empty parameter stack. The compiler is required to
    /// balance pushes and pops, so a conforming program never sees this.
    StackEmpty,
}

} // verus!
