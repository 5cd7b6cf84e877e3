//! The typed instruction set and the compiler-to-interpreter contract.
//!
//! A program is a non-empty vector of functions, each a vector of typed
//! instructions, with an entry-function index and a register count per
//! operand kind. Every operand names its bank in the opcode itself; labels
//! are indices into the current function's instruction vector. Every
//! function must end with a terminal opcode (`Halt` or `Ret`): that is the
//! compiler's guarantee, written down by [`prog_wf`] and checked by
//! [`check_program`].

use vstd::prelude::*;
use crate::float::{Float1Op, Float2Op, FloatVal};
use crate::str_impl::Str;
use crate::vars::Variable;

verus! {

/// The six map kinds, by key and value type.
#[derive(Clone, Copy, PartialEq, Eq, Structural, Debug)]
pub enum MapKind {
    IntInt,
    IntFloat,
    IntStr,
    StrInt,
    StrFloat,
    StrStr,
}

/// A comparison predicate.
#[derive(Clone, Copy, PartialEq, Eq, Structural, Debug)]
pub enum CmpOp {
    Lt,
    Gt,
    Le,
    Ge,
    Eq,
}

/// A scalar operand kind, for `printf` argument lists.
#[derive(Clone, Copy, PartialEq, Eq, Structural, Debug)]
pub enum ScalarKind {
    Int,
    Float,
    Str,
}

/// An operand kind of the parameter-passing stacks and the reserved slot
/// family.
#[derive(Clone, Copy, PartialEq, Eq, Structural, Debug)]
pub enum OpType {
    Int,
    Float,
    Str,
    OfMap(MapKind),
}

/// One typed instruction. Registers are indices into the bank the opcode
/// names; labels are instruction indices; functions are program indices.
pub enum Instr {
    StoreConstStr(u32, Str),
    StoreConstInt(u32, i64),
    StoreConstFloat(u32, FloatVal),
    IntToStr(u32, u32),
    FloatToStr(u32, u32),
    StrToInt(u32, u32),
    StrToFloat(u32, u32),
    HexStrToInt(u32, u32),
    FloatToInt(u32, u32),
    IntToFloat(u32, u32),
    AddInt(u32, u32, u32),
    MulInt(u32, u32, u32),
    MinusInt(u32, u32, u32),
    ModInt(u32, u32, u32),
    NegInt(u32, u32),
    Not(u32, u32),
    NotStr(u32, u32),
    AddFloat(u32, u32, u32),
    MulFloat(u32, u32, u32),
    MinusFloat(u32, u32, u32),
    ModFloat(u32, u32, u32),
    Div(u32, u32, u32),
    Pow(u32, u32, u32),
    NegFloat(u32, u32),
    Float1(Float1Op, u32, u32),
    Float2(Float2Op, u32, u32, u32),
    Rand(u32),
    Srand(u32, u32),
    ReseedRng(u32),
    Concat(u32, u32, u32),
    LenStr(u32, u32),
    Substr(u32, u32, u32, u32),
    SubstrIndex(u32, u32, u32),
    EscapeCSV(u32, u32),
    EscapeTSV(u32, u32),
    Match(u32, u32, u32),
    IsMatch(u32, u32, u32),
    Sub(u32, u32, u32, u32),
    GSub(u32, u32, u32, u32),
    SplitInt(u32, u32, u32, u32),
    SplitStr(u32, u32, u32, u32),
    CmpInt(CmpOp, u32, u32, u32),
    CmpFloat(CmpOp, u32, u32, u32),
    CmpStr(CmpOp, u32, u32, u32),
    GetColumn(u32, u32),
    SetColumn(u32, u32),
    JoinCSV(u32, u32, u32),
    JoinTSV(u32, u32, u32),
    JoinColumns(u32, u32, u32, u32),
    PrintStdout(u32),
    Print(u32, u32, bool),
    Printf { output: Option<(u32, bool)>, fmt: u32, args: Vec<(ScalarKind, u32)> },
    Sprintf { dst: u32, fmt: u32, args: Vec<(ScalarKind, u32)> },
    Close(u32),
    AllocMap(MapKind, u32),
    Lookup(MapKind, u32, u32, u32),
    Contains(MapKind, u32, u32, u32),
    Delete(MapKind, u32, u32),
    LenMap(MapKind, u32, u32),
    StoreMap(MapKind, u32, u32, u32),
    MovMap(MapKind, u32, u32),
    MovInt(u32, u32),
    MovFloat(u32, u32),
    MovStr(u32, u32),
    LoadVarStr(u32, Variable),
    StoreVarStr(Variable, u32),
    LoadVarInt(u32, Variable),
    StoreVarInt(Variable, u32),
    LoadVarIntMap(u32, Variable),
    StoreVarIntMap(Variable, u32),
    IterBegin(MapKind, u32, u32),
    IterHasNextInt(u32, u32),
    IterHasNextStr(u32, u32),
    IterGetNextInt(u32, u32),
    IterGetNextStr(u32, u32),
    ReadErr(u32, u32),
    NextLine(u32, u32),
    ReadErrStdin(u32),
    NextLineStdin(u32),
    NextLineStdinFused,
    NextFile,
    Jmp(u32),
    JmpIf(u32, u32),
    Call(u32),
    Ret,
    Halt,
    Push(OpType, u32),
    Pop(OpType, u32),
    LoadSlot(OpType, u32, u32),
    StoreSlot(OpType, u32, u32),
}

/// The register-file size per operand kind, dictated by the compiler.
#[derive(Clone, Copy, PartialEq, Eq, Structural, Debug)]
pub struct RegCounts {
    pub ints: u32,
    pub floats: u32,
    pub strs: u32,
    pub maps_int_int: u32,
    pub maps_int_float: u32,
    pub maps_int_str: u32,
    pub maps_str_int: u32,
    pub maps_str_float: u32,
    pub maps_str_str: u32,
    pub iters_int: u32,
    pub iters_str: u32,
}

/// A compiled program: one instruction vector per function, and the entry
/// function.
pub struct Program {
    pub funcs: Vec<Vec<Instr>>,
    pub main: usize,
}

/// The register count of a map kind.
pub open spec fn map_count(c: RegCounts, k: MapKind) -> u32 {
    match k {
        MapKind::IntInt => c.maps_int_int,
        MapKind::IntFloat => c.maps_int_float,
        MapKind::IntStr => c.maps_int_str,
        MapKind::StrInt => c.maps_str_int,
        MapKind::StrFloat => c.maps_str_float,
        MapKind::StrStr => c.maps_str_str,
    }
}

/// The register count of a stack operand kind.
pub open spec fn op_count(c: RegCounts, t: OpType) -> u32 {
    match t {
        OpType::Int => c.ints,
        OpType::Float => c.floats,
        OpType::Str => c.strs,
        OpType::OfMap(k) => map_count(c, k),
    }
}

/// Whether a map kind's key bank is the integer bank.
pub open spec fn int_keyed(k: MapKind) -> bool {
    k == MapKind::IntInt || k == MapKind::IntFloat || k == MapKind::IntStr
}

/// The scalar kind of a map kind's values.
pub open spec fn val_kind(k: MapKind) -> ScalarKind {
    match k {
        MapKind::IntInt => ScalarKind::Int,
        MapKind::IntFloat => ScalarKind::Float,
        MapKind::IntStr => ScalarKind::Str,
        MapKind::StrInt => ScalarKind::Int,
        MapKind::StrFloat => ScalarKind::Float,
        MapKind::StrStr => ScalarKind::Str,
    }
}

/// The register count of a scalar kind.
pub open spec fn scalar_count(c: RegCounts, s: ScalarKind) -> u32 {
    match s {
        ScalarKind::Int => c.ints,
        ScalarKind::Float => c.floats,
        ScalarKind::Str => c.strs,
    }
}

/// A map register and its key register are in range.
pub open spec fn map_key_wf(c: RegCounts, k: MapKind, m: u32, key: u32) -> bool {
    m < map_count(c, k) && (if int_keyed(k) {
        key < c.ints
    } else {
        key < c.strs
    })
}

/// Every operand of the instruction is within its bank; every label is
/// within the function; every callee exists.
pub open spec fn instr_wf(ins: Instr, c: RegCounts, nfuncs: int, flen: int) -> bool {
    match ins {
        Instr::StoreConstStr(d, _) => d < c.strs,
        Instr::StoreConstInt(d, _) => d < c.ints,
        Instr::StoreConstFloat(d, _) => d < c.floats,
        Instr::IntToStr(d, s) => d < c.strs && s < c.ints,
        Instr::FloatToStr(d, s) => d < c.strs && s < c.floats,
        Instr::StrToInt(d, s) => d < c.ints && s < c.strs,
        Instr::StrToFloat(d, s) => d < c.floats && s < c.strs,
        Instr::HexStrToInt(d, s) => d < c.ints && s < c.strs,
        Instr::FloatToInt(d, s) => d < c.ints && s < c.floats,
        Instr::IntToFloat(d, s) => d < c.floats && s < c.ints,
        Instr::AddInt(d, l, r) => d < c.ints && l < c.ints && r < c.ints,
        Instr::MulInt(d, l, r) => d < c.ints && l < c.ints && r < c.ints,
        Instr::MinusInt(d, l, r) => d < c.ints && l < c.ints && r < c.ints,
        Instr::ModInt(d, l, r) => d < c.ints && l < c.ints && r < c.ints,
        Instr::NegInt(d, s) => d < c.ints && s < c.ints,
        Instr::Not(d, s) => d < c.ints && s < c.ints,
        Instr::NotStr(d, s) => d < c.ints && s < c.strs,
        Instr::AddFloat(d, l, r) => d < c.floats && l < c.floats && r < c.floats,
        Instr::MulFloat(d, l, r) => d < c.floats && l < c.floats && r < c.floats,
        Instr::MinusFloat(d, l, r) => d < c.floats && l < c.floats && r < c.floats,
        Instr::ModFloat(d, l, r) => d < c.floats && l < c.floats && r < c.floats,
        Instr::Div(d, l, r) => d < c.floats && l < c.floats && r < c.floats,
        Instr::Pow(d, l, r) => d < c.floats && l < c.floats && r < c.floats,
        Instr::NegFloat(d, s) => d < c.floats && s < c.floats,
        Instr::Float1(_, d, s) => d < c.floats && s < c.floats,
        Instr::Float2(_, d, x, y) => d < c.floats && x < c.floats && y < c.floats,
        Instr::Rand(d) => d < c.floats,
        Instr::Srand(d, s) => d < c.ints && s < c.ints,
        Instr::ReseedRng(d) => d < c.ints,
        Instr::Concat(d, l, r) => d < c.strs && l < c.strs && r < c.strs,
        Instr::LenStr(d, s) => d < c.ints && s < c.strs,
        Instr::Substr(d, b, l, r) => d < c.strs && b < c.strs && l < c.ints && r < c.ints,
        Instr::SubstrIndex(d, s, t) => d < c.ints && s < c.strs && t < c.strs,
        Instr::EscapeCSV(d, s) => d < c.strs && s < c.strs,
        Instr::EscapeTSV(d, s) => d < c.strs && s < c.strs,
        Instr::Match(d, s, p) => d < c.ints && s < c.strs && p < c.strs,
        Instr::IsMatch(d, s, p) => d < c.ints && s < c.strs && p < c.strs,
        Instr::Sub(d, p, r, t) => d < c.ints && p < c.strs && r < c.strs && t < c.strs,
        Instr::GSub(d, p, r, t) => d < c.ints && p < c.strs && r < c.strs && t < c.strs,
        Instr::SplitInt(d, s, m, p) => d < c.ints && s < c.strs && m < c.maps_int_str && p
            < c.strs,
        Instr::SplitStr(d, s, m, p) => d < c.ints && s < c.strs && m < c.maps_str_str && p
            < c.strs,
        Instr::CmpInt(_, d, l, r) => d < c.ints && l < c.ints && r < c.ints,
        Instr::CmpFloat(_, d, l, r) => d < c.ints && l < c.floats && r < c.floats,
        Instr::CmpStr(_, d, l, r) => d < c.ints && l < c.strs && r < c.strs,
        Instr::GetColumn(d, s) => d < c.strs && s < c.ints,
        Instr::SetColumn(d, s) => d < c.ints && s < c.strs,
        Instr::JoinCSV(d, a, b) => d < c.strs && a < c.ints && b < c.ints,
        Instr::JoinTSV(d, a, b) => d < c.strs && a < c.ints && b < c.ints,
        Instr::JoinColumns(d, a, b, s) => d < c.strs && a < c.ints && b < c.ints && s
            < c.strs,
        Instr::PrintStdout(t) => t < c.strs,
        Instr::Print(t, o, _) => t < c.strs && o < c.strs,
        Instr::Printf { output, fmt, args } => (match output {
            Some((o, _)) => o < c.strs,
            None => true,
        }) && fmt < c.strs && (forall|k: int|
            0 <= k < args@.len() ==> (#[trigger] args@[k]).1 < scalar_count(
                c,
                args@[k].0,
            )),
        Instr::Sprintf { dst, fmt, args } => dst < c.strs && fmt < c.strs && (forall|
            k: int,
        |
            0 <= k < args@.len() ==> (#[trigger] args@[k]).1 < scalar_count(c, args@[k].0)),
        Instr::Close(f) => f < c.strs,
        Instr::AllocMap(k, d) => d < map_count(c, k),
        Instr::Lookup(k, d, m, key) => d < scalar_count(c, val_kind(k)) && map_key_wf(
            c,
            k,
            m,
            key,
        ),
        Instr::Contains(k, d, m, key) => d < c.ints && map_key_wf(c, k, m, key),
        Instr::Delete(k, m, key) => map_key_wf(c, k, m, key),
        Instr::LenMap(k, d, m) => d < c.ints && m < map_count(c, k),
        Instr::StoreMap(k, m, key, v) => map_key_wf(c, k, m, key) && v < scalar_count(
            c,
            val_kind(k),
        ),
        Instr::MovMap(k, d, s) => d < map_count(c, k) && s < map_count(c, k),
        Instr::MovInt(d, s) => d < c.ints && s < c.ints,
        Instr::MovFloat(d, s) => d < c.floats && s < c.floats,
        Instr::MovStr(d, s) => d < c.strs && s < c.strs,
        Instr::LoadVarStr(d, _) => d < c.strs,
        Instr::StoreVarStr(_, s) => s < c.strs,
        Instr::LoadVarInt(d, _) => d < c.ints,
        Instr::StoreVarInt(_, s) => s < c.ints,
        Instr::LoadVarIntMap(d, _) => d < c.maps_int_str,
        Instr::StoreVarIntMap(_, s) => s < c.maps_int_str,
        Instr::IterBegin(k, d, m) => m < map_count(c, k) && (if int_keyed(k) {
            d < c.iters_int
        } else {
            d < c.iters_str
        }),
        Instr::IterHasNextInt(d, it) => d < c.ints && it < c.iters_int,
        Instr::IterHasNextStr(d, it) => d < c.ints && it < c.iters_str,
        Instr::IterGetNextInt(d, it) => d < c.ints && it < c.iters_int,
        Instr::IterGetNextStr(d, it) => d < c.strs && it < c.iters_str,
        Instr::ReadErr(d, f) => d < c.ints && f < c.strs,
        Instr::NextLine(d, f) => d < c.strs && f < c.strs,
        Instr::ReadErrStdin(d) => d < c.ints,
        Instr::NextLineStdin(d) => d < c.strs,
        Instr::NextLineStdinFused => true,
        Instr::NextFile => true,
        Instr::Jmp(l) => l < flen,
        Instr::JmpIf(cond, l) => cond < c.ints && l < flen,
        Instr::Call(f) => f < nfuncs,
        Instr::Ret => true,
        Instr::Halt => true,
        Instr::Push(t, r) => r < op_count(c, t),
        Instr::Pop(t, r) => r < op_count(c, t),
        Instr::LoadSlot(t, r, _) => r < op_count(c, t),
        Instr::StoreSlot(t, r, _) => r < op_count(c, t),
    }
}

/// A terminal opcode ends the function.
pub open spec fn is_terminal(ins: Instr) -> bool {
    ins is Ret || ins is Halt
}

/// Every instruction of the function is well-formed and the function ends
/// with a terminal opcode.
pub open spec fn func_wf(code: Seq<Instr>, c: RegCounts, nfuncs: int) -> bool {
    code.len() > 0 && is_terminal(code.last()) && (forall|k: int|
        0 <= k < code.len() ==> instr_wf(#[trigger] code[k], c, nfuncs, code.len() as int))
}

/// The compiler-to-interpreter contract: a non-empty function vector, an
/// entry index in range, and every function well-formed.
pub open spec fn prog_wf(p: Program, c: RegCounts) -> bool {
    p.funcs@.len() > 0 && p.main < p.funcs@.len() && (forall|f: int|
        0 <= f < p.funcs@.len() ==> func_wf((#[trigger] p.funcs@[f])@, c, p.funcs@.len() as int))
}

} // verus!

verus! {

/// Whether one instruction is well-formed, mirroring [`instr_wf`].
#[verifier::rlimit(100)]
fn check_instr(ins: &Instr, c: &RegCounts, nfuncs: usize, flen: usize) -> (r: bool)
    ensures
        r == instr_wf(*ins, *c, nfuncs as int, flen as int),
{
    match ins {
        Instr::StoreConstStr(d, _) => *d < c.strs,
        Instr::StoreConstInt(d, _) => *d < c.ints,
        Instr::StoreConstFloat(d, _) => *d < c.floats,
        Instr::IntToStr(d, s) => *d < c.strs && *s < c.ints,
        Instr::FloatToStr(d, s) => *d < c.strs && *s < c.floats,
        Instr::StrToInt(d, s) => *d < c.ints && *s < c.strs,
        Instr::StrToFloat(d, s) => *d < c.floats && *s < c.strs,
        Instr::HexStrToInt(d, s) => *d < c.ints && *s < c.strs,
        Instr::FloatToInt(d, s) => *d < c.ints && *s < c.floats,
        Instr::IntToFloat(d, s) => *d < c.floats && *s < c.ints,
        Instr::AddInt(d, l, r) => *d < c.ints && *l < c.ints && *r < c.ints,
        Instr::MulInt(d, l, r) => *d < c.ints && *l < c.ints && *r < c.ints,
        Instr::MinusInt(d, l, r) => *d < c.ints && *l < c.ints && *r < c.ints,
        Instr::ModInt(d, l, r) => *d < c.ints && *l < c.ints && *r < c.ints,
        Instr::NegInt(d, s) => *d < c.ints && *s < c.ints,
        Instr::Not(d, s) => *d < c.ints && *s < c.ints,
        Instr::NotStr(d, s) => *d < c.ints && *s < c.strs,
        Instr::AddFloat(d, l, r) => *d < c.floats && *l < c.floats && *r < c.floats,
        Instr::MulFloat(d, l, r) => *d < c.floats && *l < c.floats && *r < c.floats,
        Instr::MinusFloat(d, l, r) => *d < c.floats && *l < c.floats && *r < c.floats,
        Instr::ModFloat(d, l, r) => *d < c.floats && *l < c.floats && *r < c.floats,
        Instr::Div(d, l, r) => *d < c.floats && *l < c.floats && *r < c.floats,
        Instr::Pow(d, l, r) => *d < c.floats && *l < c.floats && *r < c.floats,
        Instr::NegFloat(d, s) => *d < c.floats && *s < c.floats,
        Instr::Float1(_, d, s) => *d < c.floats && *s < c.floats,
        Instr::Float2(_, d, x, y) => *d < c.floats && *x < c.floats && *y < c.floats,
        Instr::Rand(d) => *d < c.floats,
        Instr::Srand(d, s) => *d < c.ints && *s < c.ints,
        Instr::ReseedRng(d) => *d < c.ints,
        Instr::Concat(d, l, r) => *d < c.strs && *l < c.strs && *r < c.strs,
        Instr::LenStr(d, s) => *d < c.ints && *s < c.strs,
        Instr::Substr(d, b, l, r) => *d < c.strs && *b < c.strs && *l < c.ints && *r
            < c.ints,
        Instr::SubstrIndex(d, s, t) => *d < c.ints && *s < c.strs && *t < c.strs,
        Instr::EscapeCSV(d, s) => *d < c.strs && *s < c.strs,
        Instr::EscapeTSV(d, s) => *d < c.strs && *s < c.strs,
        Instr::Match(d, s, p) => *d < c.ints && *s < c.strs && *p < c.strs,
        Instr::IsMatch(d, s, p) => *d < c.ints && *s < c.strs && *p < c.strs,
        Instr::Sub(d, p, r, t) => *d < c.ints && *p < c.strs && *r < c.strs && *t < c.strs,
        Instr::GSub(d, p, r, t) => *d < c.ints && *p < c.strs && *r < c.strs && *t < c.strs,
        Instr::SplitInt(d, s, m, p) => *d < c.ints && *s < c.strs && *m < c.maps_int_str
            && *p < c.strs,
        Instr::SplitStr(d, s, m, p) => *d < c.ints && *s < c.strs && *m < c.maps_str_str
            && *p < c.strs,
        Instr::CmpInt(_, d, l, r) => *d < c.ints && *l < c.ints && *r < c.ints,
        Instr::CmpFloat(_, d, l, r) => *d < c.ints && *l < c.floats && *r < c.floats,
        Instr::CmpStr(_, d, l, r) => *d < c.ints && *l < c.strs && *r < c.strs,
        Instr::GetColumn(d, s) => *d < c.strs && *s < c.ints,
        Instr::SetColumn(d, s) => *d < c.ints && *s < c.strs,
        Instr::JoinCSV(d, a, b) => *d < c.strs && *a < c.ints && *b < c.ints,
        Instr::JoinTSV(d, a, b) => *d < c.strs && *a < c.ints && *b < c.ints,
        Instr::JoinColumns(d, a, b, s) => *d < c.strs && *a < c.ints && *b < c.ints && *s
            < c.strs,
        Instr::PrintStdout(t) => *t < c.strs,
        Instr::Print(t, o, _) => *t < c.strs && *o < c.strs,
        Instr::Printf { output, fmt, args } => {
            let out_ok = match output {
                Some((o, _)) => *o < c.strs,
                None => true,
            };
            out_ok && *fmt < c.strs && check_args(args, c)
        },
        Instr::Sprintf { dst, fmt, args } => *dst < c.strs && *fmt < c.strs && check_args(
            args,
            c,
        ),
        Instr::Close(f) => *f < c.strs,
        Instr::AllocMap(k, d) => *d < map_count_exec(c, *k),
        Instr::Lookup(k, d, m, key) => *d < scalar_count_exec(c, val_kind_exec(*k))
            && check_map_key(c, *k, *m, *key),
        Instr::Contains(k, d, m, key) => *d < c.ints && check_map_key(c, *k, *m, *key),
        Instr::Delete(k, m, key) => check_map_key(c, *k, *m, *key),
        Instr::LenMap(k, d, m) => *d < c.ints && *m < map_count_exec(c, *k),
        Instr::StoreMap(k, m, key, v) => check_map_key(c, *k, *m, *key) && *v
            < scalar_count_exec(c, val_kind_exec(*k)),
        Instr::MovMap(k, d, s) => *d < map_count_exec(c, *k) && *s < map_count_exec(c, *k),
        Instr::MovInt(d, s) => *d < c.ints && *s < c.ints,
        Instr::MovFloat(d, s) => *d < c.floats && *s < c.floats,
        Instr::MovStr(d, s) => *d < c.strs && *s < c.strs,
        Instr::LoadVarStr(d, _) => *d < c.strs,
        Instr::StoreVarStr(_, s) => *s < c.strs,
        Instr::LoadVarInt(d, _) => *d < c.ints,
        Instr::StoreVarInt(_, s) => *s < c.ints,
        Instr::LoadVarIntMap(d, _) => *d < c.maps_int_str,
        Instr::StoreVarIntMap(_, s) => *s < c.maps_int_str,
        Instr::IterBegin(k, d, m) => {
            let dst_ok = match k {
                MapKind::IntInt | MapKind::IntFloat | MapKind::IntStr => *d < c.iters_int,
                _ => *d < c.iters_str,
            };
            *m < map_count_exec(c, *k) && dst_ok
        },
        Instr::IterHasNextInt(d, it) => *d < c.ints && *it < c.iters_int,
        Instr::IterHasNextStr(d, it) => *d < c.ints && *it < c.iters_str,
        Instr::IterGetNextInt(d, it) => *d < c.ints && *it < c.iters_int,
        Instr::IterGetNextStr(d, it) => *d < c.strs && *it < c.iters_str,
        Instr::ReadErr(d, f) => *d < c.ints && *f < c.strs,
        Instr::NextLine(d, f) => *d < c.strs && *f < c.strs,
        Instr::ReadErrStdin(d) => *d < c.ints,
        Instr::NextLineStdin(d) => *d < c.strs,
        Instr::NextLineStdinFused => true,
        Instr::NextFile => true,
        Instr::Jmp(l) => (*l as u64) < (flen as u64),
        Instr::JmpIf(cond, l) => *cond < c.ints && (*l as u64) < (flen as u64),
        Instr::Call(f) => (*f as u64) < (nfuncs as u64),
        Instr::Ret => true,
        Instr::Halt => true,
        Instr::Push(t, r) => *r < op_count_exec(c, *t),
        Instr::Pop(t, r) => *r < op_count_exec(c, *t),
        Instr::LoadSlot(t, r, _) => *r < op_count_exec(c, *t),
        Instr::StoreSlot(t, r, _) => *r < op_count_exec(c, *t),
    }
}

/// The register count of a map kind.
fn map_count_exec(c: &RegCounts, k: MapKind) -> (r: u32)
    ensures
        r == map_count(*c, k),
{
    match k {
        MapKind::IntInt => c.maps_int_int,
        MapKind::IntFloat => c.maps_int_float,
        MapKind::IntStr => c.maps_int_str,
        MapKind::StrInt => c.maps_str_int,
        MapKind::StrFloat => c.maps_str_float,
        MapKind::StrStr => c.maps_str_str,
    }
}

/// The value kind of a map kind.
fn val_kind_exec(k: MapKind) -> (r: ScalarKind)
    ensures
        r == val_kind(k),
{
    match k {
        MapKind::IntInt => ScalarKind::Int,
        MapKind::IntFloat => ScalarKind::Float,
        MapKind::IntStr => ScalarKind::Str,
        MapKind::StrInt => ScalarKind::Int,
        MapKind::StrFloat => ScalarKind::Float,
        MapKind::StrStr => ScalarKind::Str,
    }
}

/// The register count of a scalar kind.
fn scalar_count_exec(c: &RegCounts, s: ScalarKind) -> (r: u32)
    ensures
        r == scalar_count(*c, s),
{
    match s {
        ScalarKind::Int => c.ints,
        ScalarKind::Float => c.floats,
        ScalarKind::Str => c.strs,
    }
}

/// The register count of a stack operand kind.
fn op_count_exec(c: &RegCounts, t: OpType) -> (r: u32)
    ensures
        r == op_count(*c, t),
{
    match t {
        OpType::Int => c.ints,
        OpType::Float => c.floats,
        OpType::Str => c.strs,
        OpType::OfMap(k) => map_count_exec(c, k),
    }
}

/// Whether a map register and key register are in range.
fn check_map_key(c: &RegCounts, k: MapKind, m: u32, key: u32) -> (r: bool)
    ensures
        r == map_key_wf(*c, k, m, key),
{
    let key_ok = match k {
        MapKind::IntInt | MapKind::IntFloat | MapKind::IntStr => key < c.ints,
        _ => key < c.strs,
    };
    m < map_count_exec(c, k) && key_ok
}

/// Whether every format argument is within its bank.
fn check_args(args: &Vec<(ScalarKind, u32)>, c: &RegCounts) -> (r: bool)
    ensures
        r == (forall|k: int|
            0 <= k < args@.len() ==> (#[trigger] args@[k]).1 < scalar_count(*c, args@[k].0)),
{
    let n: usize = args.len();
    let mut i: usize = 0;
    while i < n
        invariant
            i <= n == args@.len(),
            forall|k: int|
                0 <= k < i ==> (#[trigger] args@[k]).1 < scalar_count(*c, args@[k].0),
        decreases n - i,
    {
        let (kind, reg) = args[i];
        if !(reg < scalar_count_exec(c, kind)) {
            return false;
        }
        i = i + 1;
    }
    true
}

/// Whether the program meets the compiler-to-interpreter contract for
/// these register counts, mirroring [`prog_wf`]: callers of
/// [`crate::interp::Interp::run`] establish its precondition with this.
pub fn check_program(p: &Program, c: &RegCounts) -> (r: bool)
    ensures
        r == prog_wf(*p, *c),
{
    let nfn: usize = p.funcs.len();
    if nfn == 0 || p.main >= nfn {
        return false;
    }
    let mut f: usize = 0;
    while f < nfn
        invariant
            f <= nfn == p.funcs@.len(),
            p.main < nfn,
            forall|g: int|
                0 <= g < f ==> func_wf((#[trigger] p.funcs@[g])@, *c, nfn as int),
        decreases nfn - f,
    {
        let code: &Vec<Instr> = &p.funcs[f];
        let flen: usize = code.len();
        if flen == 0 {
            return false;
        }
        let last_term = match &code[flen - 1] {
            Instr::Ret => true,
            Instr::Halt => true,
            _ => false,
        };
        if !last_term {
            return false;
        }
        let mut i: usize = 0;
        while i < flen
            invariant
                i <= flen == code@.len(),
                code@ == p.funcs@[f as int]@,
                f < nfn == p.funcs@.len(),
                forall|k: int|
                    0 <= k < i ==> instr_wf(#[trigger] code@[k], *c, nfn as int, flen as int),
            decreases flen - i,
        {
            if !check_instr(&code[i], c, nfn, flen) {
                return false;
            }
            i = i + 1;
        }
        f = f + 1;
    }
    true
}

} // verus!
