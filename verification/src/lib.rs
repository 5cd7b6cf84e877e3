//! The execution core of an AWK-family text-processing language: a typed
//! register-based bytecode virtual machine.
//!
//! The library holds the interpreter and everything its opcodes rely on:
//! typed operand banks, shared strings, insertion-ordered maps with snapshot
//! iterators, a regex cache, the line/field engine, formatted printing, the
//! file read and write layers and the seedable random source. Floating-point
//! arithmetic and the actual reads and writes are performed by a host that
//! the embedding program supplies (see [`host`]).

pub mod bytecode;
pub mod convert;
pub mod error;
pub mod float;
pub mod host;
pub mod interp;
pub mod io;
pub mod line;
pub mod map_impl;
pub mod printf;
pub mod rand_src;
pub mod regex_cache;
pub mod str_impl;
pub mod vars;
