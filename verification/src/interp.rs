//! The interpreter: typed operand banks, call stack and dispatch loop.
//!
//! The interpreter owns one storage per operand kind, each with a fixed
//! register file and a value stack for cross-call parameter passing. Map
//! registers hold handles into a per-kind map store, so assignment copies
//! the handle and two registers can share one map; the maps themselves
//! live as long as the interpreter. Dispatch runs the entry function's
//! instructions until a terminal opcode, a runtime error, a failed write
//! (which ends the program successfully: the broken-pipe policy) or the
//! step budget runs out.

use vstd::prelude::*;
use crate::bytecode::{
    instr_wf, map_count, prog_wf, scalar_count, val_kind, CmpOp, Instr, MapKind, OpType,
    Program, RegCounts, ScalarKind,
};
use crate::error::VmError;
use crate::float::{FloatCmpOp, FloatVal};
use crate::host::{FloatHost, IoHost};
use crate::io::{FileRead, FileWrite};
use crate::line::{JoinEscape, LineEngine};
use crate::map_impl::{IntIter, IntMap, StrIter, StrMap};
use crate::printf::FmtArg;
use crate::regex_cache::RegexCache;
use crate::str_impl::Str;
use crate::vars::{Variable, Variables};

verus! {

/// One operand bank: a fixed register file and a value stack for
/// cross-call parameter passing.
pub struct Storage<T> {
    pub regs: Vec<T>,
    pub stack: Vec<T>,
}

/// A bank of `n` registers holding default values, with an empty stack.
pub fn default_of<T: Default>(n: usize) -> (s: Storage<T>)
    ensures
        s.regs@.len() == n,
        s.stack@ == Seq::<T>::empty(),
        forall|i: int| 0 <= i < n ==> call_ensures(T::default, (), #[trigger] s.regs@[i]),
{
    let mut regs: Vec<T> = Vec::new();
    let mut i: usize = 0;
    while i < n
        invariant
            i <= n,
            regs@.len() == i,
            forall|k: int|
                0 <= k < i ==> call_ensures(T::default, (), #[trigger] regs@[k]),
        decreases n - i,
    {
        regs.push(T::default());
        i = i + 1;
    }
    Storage { regs, stack: Vec::new() }
}

/// The register at `reg`.
pub fn index<T>(s: &Storage<T>, reg: usize) -> (r: &T)
    requires
        reg < s.regs@.len(),
    ensures
        *r == s.regs@[reg as int],
{
    &s.regs[reg]
}

/// The register at `reg`, for writing.
pub fn index_mut<T>(s: &mut Storage<T>, reg: usize) -> (r: &mut T)
    requires
        reg < old(s).regs@.len(),
    ensures
        *r == old(s).regs@[reg as int],
        final(s).regs@ == old(s).regs@.update(reg as int, *final(r)),
        final(s).stack@ == old(s).stack@,
{
    &mut s.regs[reg]
}

/// Push a copy of the register onto the bank's stack.
pub fn push<T: Clone>(s: &mut Storage<T>, reg: usize)
    requires
        reg < old(s).regs@.len(),
    ensures
        final(s).regs@ == old(s).regs@,
        final(s).stack@.len() == old(s).stack@.len() + 1,
        final(s).stack@.drop_last() == old(s).stack@,
        vstd::pervasive::cloned::<T>(
            old(s).regs@[reg as int],
            final(s).stack@.last(),
        ),
{
    let v = s.regs[reg].clone();
    s.stack.push(v);
    proof {
        assert(s.stack@.drop_last() =~= old(s).stack@);
    }
}

/// Pop the bank's stack; the stack must not be empty.
pub fn pop<T: Clone>(s: &mut Storage<T>) -> (v: T)
    requires
        old(s).stack@.len() > 0,
    ensures
        final(s).regs@ == old(s).regs@,
        final(s).stack@ == old(s).stack@.drop_last(),
        v == old(s).stack@.last(),
{
    match s.stack.pop() {
        Some(v) => v,
        None => vstd::pervasive::unreached(),
    }
}

impl<T: Default> Storage<T> {
    /// Clear the stack and reset every register to the default value.
    pub fn reset(&mut self)
        ensures
            final(self).stack@ == Seq::<T>::empty(),
            final(self).regs@.len() == old(self).regs@.len(),
            forall|i: int|
                0 <= i < final(self).regs@.len() ==> call_ensures(
                    T::default,
                    (),
                    #[trigger] final(self).regs@[i],
                ),
    {
        self.stack.clear();
        let n: usize = self.regs.len();
        let mut i: usize = 0;
        while i < n
            invariant
                i <= n == self.regs@.len(),
                self.stack@ == Seq::<T>::empty(),
                forall|k: int|
                    0 <= k < i ==> call_ensures(T::default, (), #[trigger] self.regs@[k]),
            decreases n - i,
        {
            self.regs[i] = T::default();
            i = i + 1;
        }
    }
}

/// Why the dispatch loop stopped without an error.
#[derive(Clone, Copy, PartialEq, Eq, Structural, Debug)]
pub enum RunOutcome {
    /// A terminal opcode was reached or the entry frame returned: the
    /// program ran to its end.
    Done,
    /// A write to a sink failed, so the program ended successfully right
    /// there, executing no further opcode (the broken-pipe policy). Open
    /// sinks are still flushed on the way out, as they are on every exit.
    BrokenPipe,
    /// The step budget ran out first.
    OutOfFuel,
}

/// The virtual machine.
pub struct Interp {
    counts: RegCounts,
    ints: Storage<i64>,
    floats: Storage<FloatVal>,
    strs: Storage<Str>,
    m_ii: Storage<usize>,
    m_if: Storage<usize>,
    m_is: Storage<usize>,
    m_si: Storage<usize>,
    m_sf: Storage<usize>,
    m_ss: Storage<usize>,
    iters_int: Storage<IntIter>,
    iters_str: Storage<StrIter>,
    store_ii: Vec<IntMap<i64>>,
    store_if: Vec<IntMap<FloatVal>>,
    store_is: Vec<IntMap<Str>>,
    store_si: Vec<StrMap<i64>>,
    store_sf: Vec<StrMap<FloatVal>>,
    store_ss: Vec<StrMap<Str>>,
    vars: Variables,
    line: LineEngine,
    regexes: RegexCache,
    read_files: FileRead,
    write_files: FileWrite,
    rand: crate::rand_src::RandomSource,
    stack: Vec<(usize, usize)>,
}

/// The scalar banks a fresh machine holds: zero integers, zero floats and
/// empty strings, sized by the counts.
pub open spec fn default_banks(c: RegCounts) -> ScalarBanks {
    ScalarBanks {
        ints: Seq::new(c.ints as nat, |i: int| 0i64),
        floats: Seq::new(c.floats as nat, |i: int| FloatVal { bits: 0 }),
        strs: Seq::new(c.strs as nat, |i: int| Seq::<u8>::empty()),
    }
}

/// Every handle of the bank points into a store of `n` maps.
pub open spec fn handles_ok(s: Storage<usize>, n: int) -> bool {
    (forall|i: int| 0 <= i < s.regs@.len() ==> #[trigger] s.regs@[i] < n) && (forall|
        i: int,
    | 0 <= i < s.stack@.len() ==> #[trigger] s.stack@[i] < n)
}

impl Interp {
    /// The banks match the register counts and every map handle points
    /// into its store.
    pub closed spec fn wf(&self) -> bool {
        &&& self.ints.regs@.len() == self.counts.ints
        &&& self.floats.regs@.len() == self.counts.floats
        &&& self.strs.regs@.len() == self.counts.strs
        &&& self.m_ii.regs@.len() == self.counts.maps_int_int
        &&& self.m_if.regs@.len() == self.counts.maps_int_float
        &&& self.m_is.regs@.len() == self.counts.maps_int_str
        &&& self.m_si.regs@.len() == self.counts.maps_str_int
        &&& self.m_sf.regs@.len() == self.counts.maps_str_float
        &&& self.m_ss.regs@.len() == self.counts.maps_str_str
        &&& self.iters_int.regs@.len() == self.counts.iters_int
        &&& self.iters_str.regs@.len() == self.counts.iters_str
        &&& handles_ok(self.m_ii, self.store_ii@.len() as int)
        &&& handles_ok(self.m_if, self.store_if@.len() as int)
        &&& handles_ok(self.m_is, self.store_is@.len() as int)
        &&& handles_ok(self.m_si, self.store_si@.len() as int)
        &&& handles_ok(self.m_sf, self.store_sf@.len() as int)
        &&& handles_ok(self.m_ss, self.store_ss@.len() as int)
        &&& self.vars.argv < self.store_is@.len()
    }

    /// The register counts this interpreter was built with.
    pub closed spec fn spec_counts(&self) -> RegCounts {
        self.counts
    }

    /// The built-in variables.
    pub closed spec fn builtins(&self) -> Variables {
        self.vars
    }

    /// The call stack.
    pub closed spec fn call_frames(&self) -> Seq<(usize, usize)> {
        self.stack@
    }

    /// The current record.
    pub closed spec fn record_view(&self) -> Seq<u8> {
        self.line.record_view()
    }

    /// Every parameter-passing stack is empty.
    pub closed spec fn param_stacks_empty(&self) -> bool {
        self.ints.stack@.len() == 0 && self.floats.stack@.len() == 0
            && self.strs.stack@.len() == 0 && self.m_ii.stack@.len() == 0
            && self.m_if.stack@.len() == 0 && self.m_is.stack@.len() == 0
            && self.m_si.stack@.len() == 0 && self.m_sf.stack@.len() == 0
            && self.m_ss.stack@.len() == 0 && self.iters_int.stack@.len() == 0
            && self.iters_str.stack@.len() == 0
    }

    /// Every map register denotes an empty map.
    pub closed spec fn map_regs_empty(&self) -> bool {
        &&& forall|j: int|
            0 <= j < self.m_ii.regs@.len() ==> self.store_ii@[
                (#[trigger] self.m_ii.regs@[j]) as int].pairs().len() == 0
        &&& forall|j: int|
            0 <= j < self.m_if.regs@.len() ==> self.store_if@[
                (#[trigger] self.m_if.regs@[j]) as int].pairs().len() == 0
        &&& forall|j: int|
            0 <= j < self.m_is.regs@.len() ==> self.store_is@[
                (#[trigger] self.m_is.regs@[j]) as int].pairs().len() == 0
        &&& forall|j: int|
            0 <= j < self.m_si.regs@.len() ==> self.store_si@[
                (#[trigger] self.m_si.regs@[j]) as int].pairs_view().len() == 0
        &&& forall|j: int|
            0 <= j < self.m_sf.regs@.len() ==> self.store_sf@[
                (#[trigger] self.m_sf.regs@[j]) as int].pairs_view().len() == 0
        &&& forall|j: int|
            0 <= j < self.m_ss.regs@.len() ==> self.store_ss@[
                (#[trigger] self.m_ss.regs@[j]) as int].pairs_view().len() == 0
    }

    /// The read layer.
    pub closed spec fn read_layer(&self) -> FileRead {
        self.read_files
    }

    /// The write layer.
    pub closed spec fn write_layer(&self) -> FileWrite {
        self.write_files
    }

    /// The defaults the built-in variables start from.
    pub open spec fn default_vars(v: Variables) -> bool {
        v.fs@ == seq![32u8] && v.ofs@ == seq![32u8] && v.rs@ == seq![10u8] && v.nf == 0
            && v.nr == 0 && v.fnr == 0 && v.filename@ == Seq::<u8>::empty() && v.rstart == 0
            && v.rlength == -1 && v.argc == 0
    }

    /// A fresh interpreter: default-valued banks sized by `counts`, one
    /// fresh map per map register, default built-in variables, and the
    /// queued input files (the standard input when the queue is empty).
    /// The random source starts from a seed drawn from the system.
    pub fn new(counts: RegCounts, inputs: Vec<Str>) -> (r: Interp)
        ensures
            r.wf(),
            r.spec_counts() == counts,
            r.scalars() == default_banks(counts),
            r.param_stacks_empty(),
            r.call_frames() == Seq::<(usize, usize)>::empty(),
            r.map_regs_empty(),
            r.record_view() == Seq::<u8>::empty(),
            Self::default_vars(r.builtins()),
            r.rand_model().1 == 0,
    {
        let ints: Storage<i64> = default_of(counts.ints as usize);
        let floats: Storage<FloatVal> = default_of(counts.floats as usize);
        let strs: Storage<Str> = default_of(counts.strs as usize);
        let (m_ii, store_ii) = map_bank_int::<i64>(counts.maps_int_int as usize);
        let (m_if, store_if) = map_bank_int::<FloatVal>(counts.maps_int_float as usize);
        let (m_is_part, mut store_is) = map_bank_int::<Str>(counts.maps_int_str as usize);
        let (m_si, store_si) = map_bank_str::<i64>(counts.maps_str_int as usize);
        let (m_sf, store_sf) = map_bank_str::<FloatVal>(counts.maps_str_float as usize);
        let (m_ss, store_ss) = map_bank_str::<Str>(counts.maps_str_str as usize);
        let iters_int: Storage<IntIter> = default_of(counts.iters_int as usize);
        let iters_str: Storage<StrIter> = default_of(counts.iters_str as usize);
        let argv_handle: usize = store_is.len();
        store_is.push(IntMap::new());
        let seed = crate::rand_src::entropy_seed();
        let r = Interp {
            counts,
            ints,
            floats,
            strs,
            m_ii,
            m_if,
            m_is: m_is_part,
            m_si,
            m_sf,
            m_ss,
            iters_int,
            iters_str,
            store_ii,
            store_if,
            store_is,
            store_si,
            store_sf,
            store_ss,
            vars: Variables::new(argv_handle),
            line: LineEngine::new(),
            regexes: RegexCache::new(),
            read_files: FileRead::new(inputs),
            write_files: FileWrite::new(),
            rand: crate::rand_src::RandomSource::from_seed(seed),
            stack: Vec::new(),
        };
        proof {
            assert(r.scalars() =~= default_banks(counts));
        }
        r
    }
}

impl Interp {
    /// Reset the machine for a fresh run over the same register counts:
    /// default-valued scalar and iterator banks, a fresh empty map per map
    /// register, default built-in variables, an empty record, an empty
    /// regex cache and an empty call stack. The random source keeps its
    /// state; the file layers are untouched.
    pub fn reset(&mut self)
        requires
            old(self).wf(),
        ensures
            final(self).wf(),
            final(self).spec_counts() == old(self).spec_counts(),
            final(self).scalars() == default_banks(old(self).spec_counts()),
            final(self).param_stacks_empty(),
            final(self).call_frames() == Seq::<(usize, usize)>::empty(),
            final(self).map_regs_empty(),
            final(self).record_view() == Seq::<u8>::empty(),
            Self::default_vars(final(self).builtins()),
            final(self).rand_model() == old(self).rand_model(),
            final(self).read_layer() == old(self).read_layer(),
            final(self).write_layer() == old(self).write_layer(),
    {
        self.ints.reset();
        self.floats.reset();
        self.strs.reset();
        self.iters_int.reset();
        self.iters_str.reset();
        self.m_ii = refill_bank_int(&mut self.store_ii, self.counts.maps_int_int as usize);
        self.m_if = refill_bank_int(&mut self.store_if, self.counts.maps_int_float as usize);
        self.m_is = refill_bank_int(&mut self.store_is, self.counts.maps_int_str as usize);
        self.m_si = refill_bank_str(&mut self.store_si, self.counts.maps_str_int as usize);
        self.m_sf = refill_bank_str(&mut self.store_sf, self.counts.maps_str_float as usize);
        self.m_ss = refill_bank_str(&mut self.store_ss, self.counts.maps_str_str as usize);
        let argv_handle: usize = self.store_is.len();
        self.store_is.push(IntMap::new());
        self.vars = Variables::new(argv_handle);
        self.line = LineEngine::new();
        self.regexes = RegexCache::new();
        self.stack = Vec::new();
        proof {
            assert(self.scalars() =~= default_banks(old(self).spec_counts()));
        }
    }
}

/// A fresh handle bank over `n` new empty maps appended to the store.
fn refill_bank_int<V>(store: &mut Vec<IntMap<V>>, n: usize) -> (r: Storage<usize>)
    ensures
        r.regs@.len() == n,
        r.stack@ == Seq::<usize>::empty(),
        final(store)@.len() >= old(store)@.len(),
        handles_ok(r, final(store)@.len() as int),
        forall|j: int|
            0 <= j < n ==> final(store)@[(#[trigger] r.regs@[j]) as int].pairs().len() == 0,
{
    let mut regs: Vec<usize> = Vec::new();
    let mut i: usize = 0;
    while i < n
        invariant
            i <= n,
            regs@.len() == i,
            store@.len() >= old(store)@.len(),
            forall|k: int| 0 <= k < i ==> #[trigger] regs@[k] < store@.len(),
            forall|k: int|
                0 <= k < i ==> store@[(#[trigger] regs@[k]) as int].pairs().len() == 0,
        decreases n - i,
    {
        let h = store.len();
        store.push(IntMap::new());
        regs.push(h);
        i = i + 1;
    }
    Storage { regs, stack: Vec::new() }
}

/// As `refill_bank_int`, for string-keyed maps.
fn refill_bank_str<V>(store: &mut Vec<StrMap<V>>, n: usize) -> (r: Storage<usize>)
    ensures
        r.regs@.len() == n,
        r.stack@ == Seq::<usize>::empty(),
        final(store)@.len() >= old(store)@.len(),
        handles_ok(r, final(store)@.len() as int),
        forall|j: int|
            0 <= j < n ==> final(store)@[(#[trigger] r.regs@[j]) as int].pairs_view().len()
                == 0,
{
    let mut regs: Vec<usize> = Vec::new();
    let mut i: usize = 0;
    while i < n
        invariant
            i <= n,
            regs@.len() == i,
            store@.len() >= old(store)@.len(),
            forall|k: int| 0 <= k < i ==> #[trigger] regs@[k] < store@.len(),
            forall|k: int|
                0 <= k < i ==> store@[(#[trigger] regs@[k]) as int].pairs_view().len() == 0,
        decreases n - i,
    {
        let h = store.len();
        store.push(StrMap::new());
        regs.push(h);
        i = i + 1;
    }
    Storage { regs, stack: Vec::new() }
}

/// A handle bank over a fresh store of `n` empty integer-keyed maps:
/// register `i` holds handle `i`.
fn map_bank_int<V>(n: usize) -> (r: (Storage<usize>, Vec<IntMap<V>>))
    ensures
        r.0.regs@.len() == n,
        r.0.stack@ == Seq::<usize>::empty(),
        r.1@.len() == n,
        handles_ok(r.0, n as int),
        forall|j: int| 0 <= j < n ==> (#[trigger] r.1@[j]).pairs().len() == 0,
{
    let mut regs: Vec<usize> = Vec::new();
    let mut store: Vec<IntMap<V>> = Vec::new();
    let mut i: usize = 0;
    while i < n
        invariant
            i <= n,
            regs@.len() == i,
            store@.len() == i,
            forall|k: int| 0 <= k < i ==> #[trigger] regs@[k] < i,
            forall|k: int| 0 <= k < i ==> (#[trigger] store@[k]).pairs().len() == 0,
        decreases n - i,
    {
        regs.push(i);
        store.push(IntMap::new());
        i = i + 1;
    }
    let bank = Storage { regs, stack: Vec::new() };
    (bank, store)
}

/// As `map_bank_int`, for string-keyed maps.
fn map_bank_str<V>(n: usize) -> (r: (Storage<usize>, Vec<StrMap<V>>))
    ensures
        r.0.regs@.len() == n,
        r.0.stack@ == Seq::<usize>::empty(),
        r.1@.len() == n,
        handles_ok(r.0, n as int),
        forall|j: int| 0 <= j < n ==> (#[trigger] r.1@[j]).pairs_view().len() == 0,
{
    let mut regs: Vec<usize> = Vec::new();
    let mut store: Vec<StrMap<V>> = Vec::new();
    let mut i: usize = 0;
    while i < n
        invariant
            i <= n,
            regs@.len() == i,
            store@.len() == i,
            forall|k: int| 0 <= k < i ==> #[trigger] regs@[k] < i,
            forall|k: int| 0 <= k < i ==> (#[trigger] store@[k]).pairs_view().len() == 0,
        decreases n - i,
    {
        regs.push(i);
        store.push(StrMap::new());
        i = i + 1;
    }
    let bank = Storage { regs, stack: Vec::new() };
    (bank, store)
}

} // verus!

verus! {

/// The specification view of the three scalar banks' register files.
#[verifier::ext_equal]
pub ghost struct ScalarBanks {
    pub ints: Seq<i64>,
    pub floats: Seq<FloatVal>,
    pub strs: Seq<Seq<u8>>,
}

/// A truth value as a register value.
pub open spec fn bool_int(b: bool) -> i64 {
    if b {
        1
    } else {
        0
    }
}

/// An integer comparison.
pub open spec fn cmp_int_spec(op: CmpOp, a: i64, b: i64) -> bool {
    match op {
        CmpOp::Lt => a < b,
        CmpOp::Gt => a > b,
        CmpOp::Le => a <= b,
        CmpOp::Ge => a >= b,
        CmpOp::Eq => a == b,
    }
}

/// A comparison decided by a three-way lexicographic result.
pub open spec fn cmp_of_ordering(op: CmpOp, c: int) -> bool {
    match op {
        CmpOp::Lt => c < 0,
        CmpOp::Gt => c > 0,
        CmpOp::Le => c <= 0,
        CmpOp::Ge => c >= 0,
        CmpOp::Eq => c == 0,
    }
}

/// What one total scalar opcode does to the scalar banks: the exact
/// semantics of the constant, copy, integer-arithmetic, comparison,
/// string and integer-conversion instructions. Every other instruction
/// leaves the scalar banks to its own executor.
pub open spec fn scalar_step(b: ScalarBanks, ins: Instr) -> ScalarBanks {
    match ins {
        Instr::StoreConstStr(d, v) => ScalarBanks { strs: b.strs.update(d as int, v@), ..b },
        Instr::StoreConstInt(d, v) => ScalarBanks { ints: b.ints.update(d as int, v), ..b },
        Instr::StoreConstFloat(d, v) => ScalarBanks {
            floats: b.floats.update(d as int, v),
            ..b
        },
        Instr::MovInt(d, s) => ScalarBanks {
            ints: b.ints.update(d as int, b.ints[s as int]),
            ..b
        },
        Instr::MovFloat(d, s) => ScalarBanks {
            floats: b.floats.update(d as int, b.floats[s as int]),
            ..b
        },
        Instr::MovStr(d, s) => ScalarBanks {
            strs: b.strs.update(d as int, b.strs[s as int]),
            ..b
        },
        Instr::IntToStr(d, s) => ScalarBanks {
            strs: b.strs.update(d as int, crate::convert::int_to_str_spec(b.ints[s as int] as int)),
            ..b
        },
        Instr::StrToInt(d, s) => ScalarBanks {
            ints: b.ints.update(d as int, crate::convert::str_to_int_spec(b.strs[s as int])),
            ..b
        },
        Instr::HexStrToInt(d, s) => ScalarBanks {
            ints: b.ints.update(
                d as int,
                crate::convert::hex_str_to_int_spec(b.strs[s as int]),
            ),
            ..b
        },
        Instr::AddInt(d, l, r) => ScalarBanks {
            ints: b.ints.update(
                d as int,
                crate::convert::wrap_add_spec(b.ints[l as int], b.ints[r as int]),
            ),
            ..b
        },
        Instr::MinusInt(d, l, r) => ScalarBanks {
            ints: b.ints.update(
                d as int,
                crate::convert::wrap_sub_spec(b.ints[l as int], b.ints[r as int]),
            ),
            ..b
        },
        Instr::MulInt(d, l, r) => ScalarBanks {
            ints: b.ints.update(
                d as int,
                crate::convert::wrap_mul_spec(b.ints[l as int], b.ints[r as int]),
            ),
            ..b
        },
        Instr::ModInt(d, l, r) => ScalarBanks {
            ints: b.ints.update(
                d as int,
                crate::convert::rem_spec(b.ints[l as int], b.ints[r as int]),
            ),
            ..b
        },
        Instr::NegInt(d, s) => ScalarBanks {
            ints: b.ints.update(d as int, crate::convert::wrap_neg_spec(b.ints[s as int])),
            ..b
        },
        Instr::Not(d, s) => ScalarBanks {
            ints: b.ints.update(d as int, bool_int(b.ints[s as int] == 0)),
            ..b
        },
        Instr::NotStr(d, s) => ScalarBanks {
            ints: b.ints.update(d as int, bool_int(b.strs[s as int].len() == 0)),
            ..b
        },
        Instr::CmpInt(op, d, l, r) => ScalarBanks {
            ints: b.ints.update(
                d as int,
                bool_int(cmp_int_spec(op, b.ints[l as int], b.ints[r as int])),
            ),
            ..b
        },
        Instr::CmpStr(op, d, l, r) => ScalarBanks {
            ints: b.ints.update(
                d as int,
                bool_int(
                    cmp_of_ordering(
                        op,
                        crate::str_impl::lex_cmp(b.strs[l as int], b.strs[r as int]),
                    ),
                ),
            ),
            ..b
        },
        Instr::Concat(d, l, r) => ScalarBanks {
            strs: b.strs.update(d as int, b.strs[l as int] + b.strs[r as int]),
            ..b
        },
        Instr::LenStr(d, s) => ScalarBanks {
            ints: b.ints.update(
                d as int,
                crate::str_impl::sat_i64(b.strs[s as int].len() as int),
            ),
            ..b
        },
        Instr::Substr(d, base, l, r) => ScalarBanks {
            strs: b.strs.update(
                d as int,
                crate::str_impl::substr_spec(
                    b.strs[base as int],
                    b.ints[l as int] as int,
                    b.ints[r as int] as int,
                ),
            ),
            ..b
        },
        Instr::SubstrIndex(d, s, t) => ScalarBanks {
            ints: b.ints.update(
                d as int,
                crate::str_impl::sat_i64(
                    crate::str_impl::find_spec(b.strs[s as int], b.strs[t as int], 0),
                ),
            ),
            ..b
        },
        Instr::EscapeCSV(d, s) => ScalarBanks {
            strs: b.strs.update(d as int, crate::convert::escape_csv_spec(b.strs[s as int])),
            ..b
        },
        Instr::EscapeTSV(d, s) => ScalarBanks {
            strs: b.strs.update(d as int, crate::convert::escape_tsv_spec(b.strs[s as int])),
            ..b
        },
        _ => b,
    }
}

/// The destination float register took some value; nothing else moved.
pub open spec fn some_float_write(pre: ScalarBanks, post: ScalarBanks, d: u32) -> bool {
    post.ints == pre.ints && post.strs == pre.strs && (exists|v: FloatVal|
        post.floats == pre.floats.update(d as int, v))
}

/// The destination integer register took some value; nothing else moved.
pub open spec fn some_int_write(pre: ScalarBanks, post: ScalarBanks, d: u32) -> bool {
    post.floats == pre.floats && post.strs == pre.strs && (exists|v: i64|
        post.ints == pre.ints.update(d as int, v))
}

/// What a float opcode may do to the scalar banks: exactly the named
/// destination register changes, and negation is exact (the sign bit
/// flipped). The values the host computes are otherwise unconstrained.
pub open spec fn float_step_frame(pre: ScalarBanks, post: ScalarBanks, ins: Instr) -> bool {
    match ins {
        Instr::AddFloat(d, _, _) => some_float_write(pre, post, d),
        Instr::MinusFloat(d, _, _) => some_float_write(pre, post, d),
        Instr::MulFloat(d, _, _) => some_float_write(pre, post, d),
        Instr::Div(d, _, _) => some_float_write(pre, post, d),
        Instr::ModFloat(d, _, _) => some_float_write(pre, post, d),
        Instr::Pow(d, _, _) => some_float_write(pre, post, d),
        Instr::Float1(_, d, _) => some_float_write(pre, post, d),
        Instr::Float2(_, d, _, _) => some_float_write(pre, post, d),
        Instr::IntToFloat(d, _) => some_float_write(pre, post, d),
        Instr::StrToFloat(d, _) => some_float_write(pre, post, d),
        Instr::Rand(d) => some_float_write(pre, post, d),
        Instr::NegFloat(d, x) => post.ints == pre.ints && post.strs == pre.strs
            && post.floats == pre.floats.update(
            d as int,
            FloatVal { bits: pre.floats[x as int].bits ^ crate::float::SIGN_BIT },
        ),
        Instr::CmpFloat(_, d, _, _) => post.floats == pre.floats && post.strs == pre.strs
            && (post.ints == pre.ints.update(d as int, 0i64) || post.ints == pre.ints.update(
            d as int,
            1i64,
        )),
        Instr::FloatToInt(d, _) => some_int_write(pre, post, d),
        Instr::Srand(d, _) => some_int_write(pre, post, d),
        Instr::ReseedRng(d) => some_int_write(pre, post, d),
        Instr::FloatToStr(d, _) => post.ints == pre.ints && post.floats == pre.floats && (
        exists|t: Seq<u8>| post.strs == pre.strs.update(d as int, t)),
        _ => post == pre,
    }
}

/// How a float-family opcode moves the random source's model, and the
/// exact values the seeding opcodes write: `Srand` installs the
/// two's-complement seed from its operand, resets the draw count and
/// returns the previously active seed; `Rand` draws one word of the
/// seeded stream; reseeding from entropy installs an unconstrained seed
/// and also returns the previous one; everything else leaves the model
/// alone. Together with [`crate::rand_src::rng_stream`] this makes the
/// 64-bit stream after `Srand(k)` a function of `k` alone.
pub open spec fn rand_step(
    pre_m: (u64, u64),
    post_m: (u64, u64),
    pre_b: ScalarBanks,
    post_b: ScalarBanks,
    ins: Instr,
) -> bool {
    match ins {
        Instr::Rand(_) => post_m.0 == pre_m.0 && (pre_m.1 < u64::MAX ==> post_m.1
            == pre_m.1 + 1),
        Instr::Srand(d, s) => post_m.0 as nat == crate::printf::u64_of_i64(
            pre_b.ints[s as int],
        ) && post_m.1 == 0 && post_b.ints == pre_b.ints.update(
            d as int,
            crate::convert::wrap_pos(pre_m.0 as nat),
        ),
        Instr::ReseedRng(d) => post_m.1 == 0 && post_b.ints == pre_b.ints.update(
            d as int,
            crate::convert::wrap_pos(pre_m.0 as nat),
        ),
        _ => post_m == pre_m,
    }
}

/// The destination string register took some value; nothing else moved.
pub open spec fn some_str_write(pre: ScalarBanks, post: ScalarBanks, d: u32) -> bool {
    post.ints == pre.ints && post.floats == pre.floats && (exists|t: Seq<u8>|
        post.strs == pre.strs.update(d as int, t))
}

/// The destination integer register took 0 or 1; nothing else moved.
pub open spec fn bool_write(pre: ScalarBanks, post: ScalarBanks, d: u32) -> bool {
    post.floats == pre.floats && post.strs == pre.strs && (post.ints == pre.ints.update(
        d as int,
        0i64,
    ) || post.ints == pre.ints.update(d as int, 1i64))
}

/// A substitution wrote the new text and the count; nothing else moved.
pub open spec fn sub_write(pre: ScalarBanks, post: ScalarBanks, d: u32, t: u32) -> bool {
    post.floats == pre.floats && (exists|txt: Seq<u8>, n: i64|
        post.strs == pre.strs.update(t as int, txt) && post.ints == pre.ints.update(
            d as int,
            n,
        ))
}

/// How one non-control opcode moves the scalar banks: exact through
/// [`scalar_step`] for the total scalar opcodes, the float frame for the
/// float family, and for the opcodes that consult maps, the line engine,
/// the variables or the hosts, exactly the named destination registers
/// change (their values are pinned by the contracts of the components the
/// executors call).
pub open spec fn step_scalars(pre: ScalarBanks, post: ScalarBanks, ins: Instr) -> bool {
    match ins {
        Instr::StoreConstStr(_, _) => post == scalar_step(pre, ins),
        Instr::StoreConstInt(_, _) => post == scalar_step(pre, ins),
        Instr::StoreConstFloat(_, _) => post == scalar_step(pre, ins),
        Instr::MovInt(_, _) => post == scalar_step(pre, ins),
        Instr::MovFloat(_, _) => post == scalar_step(pre, ins),
        Instr::MovStr(_, _) => post == scalar_step(pre, ins),
        Instr::IntToStr(_, _) => post == scalar_step(pre, ins),
        Instr::StrToInt(_, _) => post == scalar_step(pre, ins),
        Instr::HexStrToInt(_, _) => post == scalar_step(pre, ins),
        Instr::AddInt(_, _, _) => post == scalar_step(pre, ins),
        Instr::MinusInt(_, _, _) => post == scalar_step(pre, ins),
        Instr::MulInt(_, _, _) => post == scalar_step(pre, ins),
        Instr::ModInt(_, _, _) => post == scalar_step(pre, ins),
        Instr::NegInt(_, _) => post == scalar_step(pre, ins),
        Instr::Not(_, _) => post == scalar_step(pre, ins),
        Instr::NotStr(_, _) => post == scalar_step(pre, ins),
        Instr::CmpInt(_, _, _, _) => post == scalar_step(pre, ins),
        Instr::CmpStr(_, _, _, _) => post == scalar_step(pre, ins),
        Instr::Concat(_, _, _) => post == scalar_step(pre, ins),
        Instr::LenStr(_, _) => post == scalar_step(pre, ins),
        Instr::Substr(_, _, _, _) => post == scalar_step(pre, ins),
        Instr::SubstrIndex(_, _, _) => post == scalar_step(pre, ins),
        Instr::EscapeCSV(_, _) => post == scalar_step(pre, ins),
        Instr::EscapeTSV(_, _) => post == scalar_step(pre, ins),
        Instr::AddFloat(_, _, _) => float_step_frame(pre, post, ins),
        Instr::MinusFloat(_, _, _) => float_step_frame(pre, post, ins),
        Instr::MulFloat(_, _, _) => float_step_frame(pre, post, ins),
        Instr::Div(_, _, _) => float_step_frame(pre, post, ins),
        Instr::ModFloat(_, _, _) => float_step_frame(pre, post, ins),
        Instr::Pow(_, _, _) => float_step_frame(pre, post, ins),
        Instr::NegFloat(_, _) => float_step_frame(pre, post, ins),
        Instr::Float1(_, _, _) => float_step_frame(pre, post, ins),
        Instr::Float2(_, _, _, _) => float_step_frame(pre, post, ins),
        Instr::CmpFloat(_, _, _, _) => float_step_frame(pre, post, ins),
        Instr::FloatToStr(_, _) => float_step_frame(pre, post, ins),
        Instr::StrToFloat(_, _) => float_step_frame(pre, post, ins),
        Instr::FloatToInt(_, _) => float_step_frame(pre, post, ins),
        Instr::IntToFloat(_, _) => float_step_frame(pre, post, ins),
        Instr::Rand(_) => float_step_frame(pre, post, ins),
        Instr::Srand(_, _) => float_step_frame(pre, post, ins),
        Instr::ReseedRng(_) => float_step_frame(pre, post, ins),
        Instr::Lookup(k, d, _, _) => match val_kind(k) {
            ScalarKind::Int => some_int_write(pre, post, d),
            ScalarKind::Float => some_float_write(pre, post, d),
            ScalarKind::Str => some_str_write(pre, post, d),
        },
        Instr::Contains(_, d, _, _) => bool_write(pre, post, d),
        Instr::LenMap(_, d, _) => some_int_write(pre, post, d),
        Instr::IterHasNextInt(d, _) => bool_write(pre, post, d),
        Instr::IterHasNextStr(d, _) => bool_write(pre, post, d),
        Instr::IterGetNextInt(d, _) => some_int_write(pre, post, d),
        Instr::IterGetNextStr(d, _) => some_str_write(pre, post, d),
        Instr::AllocMap(_, _) => post == pre,
        Instr::StoreMap(_, _, _, _) => post == pre,
        Instr::Delete(_, _, _) => post == pre,
        Instr::MovMap(_, _, _) => post == pre,
        Instr::IterBegin(_, _, _) => post == pre,
        Instr::GetColumn(d, _) => some_str_write(pre, post, d),
        Instr::SetColumn(_, _) => post == pre,
        Instr::JoinCSV(d, _, _) => some_str_write(pre, post, d),
        Instr::JoinTSV(d, _, _) => some_str_write(pre, post, d),
        Instr::JoinColumns(d, _, _, _) => some_str_write(pre, post, d),
        Instr::Match(d, _, _) => some_int_write(pre, post, d),
        Instr::IsMatch(d, _, _) => bool_write(pre, post, d),
        Instr::Sub(d, _, _, t) => sub_write(pre, post, d, t),
        Instr::GSub(d, _, _, t) => sub_write(pre, post, d, t),
        Instr::SplitInt(d, _, _, _) => some_int_write(pre, post, d),
        Instr::SplitStr(d, _, _, _) => some_int_write(pre, post, d),
        Instr::PrintStdout(_) => post == pre,
        Instr::Print(_, _, _) => post == pre,
        Instr::Printf { .. } => post == pre,
        Instr::Sprintf { dst, .. } => some_str_write(pre, post, dst),
        Instr::Close(_) => post == pre,
        Instr::ReadErr(d, _) => some_int_write(pre, post, d),
        Instr::ReadErrStdin(d) => some_int_write(pre, post, d),
        Instr::NextLine(d, _) => some_str_write(pre, post, d),
        Instr::NextLineStdin(d) => some_str_write(pre, post, d),
        Instr::NextLineStdinFused => post == pre,
        Instr::NextFile => post == pre,
        Instr::LoadVarStr(d, _) => some_str_write(pre, post, d),
        Instr::StoreVarStr(_, _) => post == pre,
        Instr::LoadVarInt(d, _) => some_int_write(pre, post, d),
        Instr::StoreVarInt(_, _) => post == pre,
        Instr::LoadVarIntMap(_, _) => post == pre,
        Instr::StoreVarIntMap(_, _) => post == pre,
        Instr::Push(_, _) => post == pre,
        Instr::Pop(t, r) => match t {
            OpType::Int => some_int_write(pre, post, r),
            OpType::Float => some_float_write(pre, post, r),
            OpType::Str => some_str_write(pre, post, r),
            OpType::OfMap(_) => post == pre,
        },
        Instr::LoadSlot(_, _, _) => post == pre,
        Instr::StoreSlot(_, _, _) => post == pre,
        Instr::Jmp(_) => post == pre,
        Instr::JmpIf(_, _) => post == pre,
        Instr::Call(_) => post == pre,
        Instr::Ret => post == pre,
        Instr::Halt => post == pre,
    }
}

/// The condition under which an opcode can go on rather than fail: the
/// reserved slots never can; typed variable access needs the matching
/// variable kind; a column access needs a non-negative column; a regex
/// opcode whose pattern stands in a string register needs the engine to
/// accept that pattern. Opcodes whose failure conditions live outside the
/// scalar banks (an invalid separator variable, an exhausted iterator, an
/// empty parameter stack, a failing close) carry no condition here; their
/// errors are still confined by [`err_of`].
pub open spec fn ok_cond(ins: Instr, b: ScalarBanks) -> bool {
    match ins {
        Instr::Match(_, _, p) => crate::regex_cache::re_valid(b.strs[p as int]),
        Instr::IsMatch(_, _, p) => crate::regex_cache::re_valid(b.strs[p as int]),
        Instr::Sub(_, p, _, _) => crate::regex_cache::re_valid(b.strs[p as int]),
        Instr::GSub(_, p, _, _) => crate::regex_cache::re_valid(b.strs[p as int]),
        Instr::GetColumn(_, s) => b.ints[s as int] >= 0,
        Instr::SetColumn(d, _) => b.ints[d as int] >= 0,
        Instr::LoadVarStr(_, v) => Variables::is_str_var(v),
        Instr::StoreVarStr(v, _) => Variables::is_str_var(v),
        Instr::LoadVarInt(_, v) => Variables::is_int_var(v),
        Instr::StoreVarInt(v, _) => Variables::is_int_var(v),
        Instr::LoadVarIntMap(_, v) => v == Variable::ARGV,
        Instr::StoreVarIntMap(v, _) => v == Variable::ARGV,
        Instr::LoadSlot(_, _, _) => false,
        Instr::StoreSlot(_, _, _) => false,
        _ => true,
    }
}

/// Which error an opcode may raise, and under which bank condition: the
/// negation of [`ok_cond`] where that condition is scalar-visible, plus
/// the conditions that live outside the banks (a separator that needs an
/// invalid regex, an exhausted iterator, an empty parameter stack, a
/// failing close).
pub open spec fn err_of(ins: Instr, b: ScalarBanks, e: VmError) -> bool {
    match ins {
        Instr::Match(_, _, p) => e == VmError::RegexSyntax && !crate::regex_cache::re_valid(
            b.strs[p as int],
        ),
        Instr::IsMatch(_, _, p) => e == VmError::RegexSyntax
            && !crate::regex_cache::re_valid(b.strs[p as int]),
        Instr::Sub(_, p, _, _) => e == VmError::RegexSyntax && !crate::regex_cache::re_valid(
            b.strs[p as int],
        ),
        Instr::GSub(_, p, _, _) => e == VmError::RegexSyntax
            && !crate::regex_cache::re_valid(b.strs[p as int]),
        Instr::SplitInt(_, _, _, p) => e == VmError::RegexSyntax
            && !crate::regex_cache::re_valid(b.strs[p as int]),
        Instr::SplitStr(_, _, _, p) => e == VmError::RegexSyntax
            && !crate::regex_cache::re_valid(b.strs[p as int]),
        Instr::GetColumn(_, s) => (e == VmError::NegativeField && b.ints[s as int] < 0) || e
            == VmError::RegexSyntax,
        Instr::SetColumn(d, _) => (e == VmError::NegativeField && b.ints[d as int] < 0) || e
            == VmError::RegexSyntax,
        Instr::JoinCSV(_, _, _) => e == VmError::RegexSyntax,
        Instr::JoinTSV(_, _, _) => e == VmError::RegexSyntax,
        Instr::JoinColumns(_, _, _, _) => e == VmError::RegexSyntax,
        Instr::LoadVarStr(_, v) => e == VmError::WrongVarType && !Variables::is_str_var(v),
        Instr::StoreVarStr(v, _) => e == VmError::WrongVarType && !Variables::is_str_var(v),
        Instr::LoadVarInt(_, v) => (e == VmError::WrongVarType && !Variables::is_int_var(v))
            || (e == VmError::RegexSyntax && v == Variable::NF),
        Instr::StoreVarInt(v, _) => e == VmError::WrongVarType && !Variables::is_int_var(v),
        Instr::LoadVarIntMap(_, v) => e == VmError::WrongVarType && v != Variable::ARGV,
        Instr::StoreVarIntMap(v, _) => e == VmError::WrongVarType && v != Variable::ARGV,
        Instr::IterGetNextInt(_, _) => e == VmError::IterExhausted,
        Instr::IterGetNextStr(_, _) => e == VmError::IterExhausted,
        Instr::Pop(_, _) => e == VmError::StackEmpty,
        Instr::LoadSlot(_, _, _) => e == VmError::UnimplementedSlot,
        Instr::StoreSlot(_, _, _) => e == VmError::UnimplementedSlot,
        Instr::Close(_) => e == VmError::CloseFailed,
        _ => false,
    }
}

/// An opcode that writes to a sink (the only opcodes that can end the
/// program by the broken-pipe policy).
pub open spec fn is_output_instr(ins: Instr) -> bool {
    ins is PrintStdout || ins is Print || ins matches Instr::Printf { .. }
}

/// A dispatch configuration: the current function, the instruction index,
/// the call stack, and the scalar banks.
pub ghost struct Config {
    pub f: int,
    pub i: int,
    pub frames: Seq<(int, int)>,
    pub banks: ScalarBanks,
}

/// A call stack, viewed as integer pairs.
pub open spec fn frames_of(s: Seq<(usize, usize)>) -> Seq<(int, int)> {
    s.map_values(|p: (usize, usize)| (p.0 as int, p.1 as int))
}

/// The instruction vectors of a program, viewed.
pub open spec fn code_view(p: Program) -> Seq<Seq<Instr>> {
    p.funcs@.map_values(|v: Vec<Instr>| v@)
}

/// The configuration dispatch starts from: the entry function's first
/// instruction, an empty call stack, and the given banks.
pub open spec fn init_cfg(p: Program, banks: ScalarBanks) -> Config {
    Config { f: p.main as int, i: 0, frames: Seq::empty(), banks }
}

/// One step of the dispatch relation: control opcodes move control exactly
/// (a conditional jump reads its register from the banks, a call pushes
/// the return frame, a return pops it), and every other opcode advances by
/// one, is allowed to go on ([`ok_cond`]) and moves the banks by
/// [`step_scalars`]. A terminal `Halt`, a `Ret` on an empty stack, and a
/// failing opcode take no step.
pub open spec fn step_cfg(code: Seq<Seq<Instr>>, c1: Config, c2: Config) -> bool {
    &&& 0 <= c1.f < code.len()
    &&& 0 <= c1.i < code[c1.f].len()
    &&& {
        let ins = code[c1.f][c1.i];
        match ins {
            Instr::Jmp(l) => c2 == (Config { f: c1.f, i: l as int, frames: c1.frames, banks: c1.banks }),
            Instr::JmpIf(cond, l) => c2 == (Config {
                f: c1.f,
                i: if c1.banks.ints[cond as int] != 0 {
                    l as int
                } else {
                    c1.i + 1
                },
                frames: c1.frames,
                banks: c1.banks,
            }),
            Instr::Call(fx) => c2 == (Config {
                f: fx as int,
                i: 0,
                frames: c1.frames.push((c1.f, c1.i + 1)),
                banks: c1.banks,
            }),
            Instr::Ret => c1.frames.len() > 0 && c2 == (Config {
                f: c1.frames.last().0,
                i: c1.frames.last().1,
                frames: c1.frames.drop_last(),
                banks: c1.banks,
            }),
            Instr::Halt => false,
            _ => c2.f == c1.f && c2.i == c1.i + 1 && c2.frames == c1.frames && ok_cond(
                ins,
                c1.banks,
            ) && step_scalars(c1.banks, c2.banks, ins),
        }
    }
}

/// `b` is reached from `a` in exactly `n` dispatch steps.
pub open spec fn steps_n(code: Seq<Seq<Instr>>, a: Config, b: Config, n: nat) -> bool
    decreases n,
{
    if n == 0 {
        a == b
    } else {
        exists|mid: Config|
            steps_n(code, a, mid, (n - 1) as nat) && step_cfg(code, mid, b)
    }
}

/// `b` is reached from `a` in some number of dispatch steps.
pub open spec fn reaches(code: Seq<Seq<Instr>>, a: Config, b: Config) -> bool {
    exists|n: nat| steps_n(code, a, b, n)
}

/// How a run may end at configuration `c`: successfully done only at
/// `Halt` or at a `Ret` of the entry frame; by the broken-pipe policy only
/// at an opcode that writes to a sink; out of fuel anywhere; with an error
/// only where [`err_of`] allows it.
pub open spec fn ends_at(code: Seq<Seq<Instr>>, c: Config, r: Result<RunOutcome, VmError>) -> bool {
    &&& 0 <= c.f < code.len()
    &&& 0 <= c.i < code[c.f].len()
    &&& {
        let ins = code[c.f][c.i];
        match r {
            Ok(RunOutcome::Done) => ins is Halt || (ins is Ret && c.frames.len() == 0),
            Ok(RunOutcome::BrokenPipe) => is_output_instr(ins),
            Ok(RunOutcome::OutOfFuel) => true,
            Err(e) => err_of(ins, c.banks, e),
        }
    }
}

/// The opcodes the map executor handles.
pub open spec fn map_family(ins: Instr) -> bool {
    ins is AllocMap || ins is Lookup || ins is Contains || ins is Delete || ins is LenMap
        || ins is StoreMap || ins is MovMap || ins is IterBegin || ins is IterHasNextInt
        || ins is IterHasNextStr || ins is IterGetNextInt || ins is IterGetNextStr
}

/// The opcodes the field/regex executor handles.
pub open spec fn line_family(ins: Instr) -> bool {
    ins is GetColumn || ins is SetColumn || ins is JoinCSV || ins is JoinTSV
        || ins is JoinColumns || ins is Match || ins is IsMatch || ins is Sub || ins is GSub
        || ins is SplitInt || ins is SplitStr
}

/// The opcodes the input/output executor handles.
pub open spec fn io_family(ins: Instr) -> bool {
    ins is PrintStdout || ins is Print || ins matches Instr::Printf { .. }
        || ins matches Instr::Sprintf { .. } || ins is Close || ins is ReadErr
        || ins is NextLine || ins is ReadErrStdin || ins is NextLineStdin
        || ins is NextLineStdinFused || ins is NextFile
}

/// The opcodes the variable/stack executor handles.
pub open spec fn vars_family(ins: Instr) -> bool {
    ins is LoadVarStr || ins is StoreVarStr || ins is LoadVarInt || ins is StoreVarInt
        || ins is LoadVarIntMap || ins is StoreVarIntMap || ins is Push || ins is Pop
        || ins is LoadSlot || ins is StoreSlot
}

/// What the dispatch loop does after an instruction.
enum Flow {
    /// Go on to the next instruction.
    Next,
    /// Stop and report success (a write failed: the broken-pipe policy).
    Stop,
}

impl Interp {
    /// The random source's model: the active seed and the number of words
    /// drawn from it.
    pub closed spec fn rand_model(&self) -> (u64, u64) {
        (self.rand.seed_view(), self.rand.drawn_view())
    }

    /// The scalar banks' register files, viewed.
    pub closed spec fn scalars(&self) -> ScalarBanks {
        ScalarBanks {
            ints: self.ints.regs@,
            floats: self.floats.regs@,
            strs: self.strs.regs@.map_values(|x: Str| x@),
        }
    }

    /// The map-handle bank of a kind.
    spec fn bank_of(&self, k: MapKind) -> Storage<usize> {
        match k {
            MapKind::IntInt => self.m_ii,
            MapKind::IntFloat => self.m_if,
            MapKind::IntStr => self.m_is,
            MapKind::StrInt => self.m_si,
            MapKind::StrFloat => self.m_sf,
            MapKind::StrStr => self.m_ss,
        }
    }

    /// The map-store size of a kind.
    spec fn store_len(&self, k: MapKind) -> int {
        match k {
            MapKind::IntInt => self.store_ii@.len() as int,
            MapKind::IntFloat => self.store_if@.len() as int,
            MapKind::IntStr => self.store_is@.len() as int,
            MapKind::StrInt => self.store_si@.len() as int,
            MapKind::StrFloat => self.store_sf@.len() as int,
            MapKind::StrStr => self.store_ss@.len() as int,
        }
    }

    /// The handle in map register `r` of kind `k`.
    fn get_h(&self, k: MapKind, r: u32) -> (h: usize)
        requires
            self.wf(),
            r < map_count(self.spec_counts(), k),
        ensures
            h < self.store_len(k),
            h == self.bank_of(k).regs@[r as int],
    {
        match k {
            MapKind::IntInt => self.m_ii.regs[r as usize],
            MapKind::IntFloat => self.m_if.regs[r as usize],
            MapKind::IntStr => self.m_is.regs[r as usize],
            MapKind::StrInt => self.m_si.regs[r as usize],
            MapKind::StrFloat => self.m_sf.regs[r as usize],
            MapKind::StrStr => self.m_ss.regs[r as usize],
        }
    }

    /// Set the map register `r` of kind `k` to `h`.
    fn set_h(&mut self, k: MapKind, r: u32, h: usize)
        requires
            old(self).wf(),
            r < map_count(old(self).spec_counts(), k),
            h < old(self).store_len(k),
        ensures
            final(self).wf(),
            final(self).spec_counts() == old(self).spec_counts(),
            final(self).stack@ == old(self).stack@,
            final(self).scalars() == old(self).scalars(),
            final(self).rand_model() == old(self).rand_model(),
    {
        match k {
            MapKind::IntInt => {
                self.m_ii.regs[r as usize] = h;
            },
            MapKind::IntFloat => {
                self.m_if.regs[r as usize] = h;
            },
            MapKind::IntStr => {
                self.m_is.regs[r as usize] = h;
            },
            MapKind::StrInt => {
                self.m_si.regs[r as usize] = h;
            },
            MapKind::StrFloat => {
                self.m_sf.regs[r as usize] = h;
            },
            MapKind::StrStr => {
                self.m_ss.regs[r as usize] = h;
            },
        }
    }

    /// The constants, copies, integer arithmetic, comparisons, string
    /// operations and integer conversions: total opcodes over the banks,
    /// each pinned down by [`scalar_step`].
    #[verifier::rlimit(100)]
    fn exec_basic(&mut self, ins: &Instr, Ghost(nf): Ghost<int>, Ghost(fl): Ghost<int>)
        requires
            old(self).wf(),
            instr_wf(*ins, old(self).spec_counts(), nf, fl),
        ensures
            final(self).wf(),
            final(self).spec_counts() == old(self).spec_counts(),
            final(self).stack@ == old(self).stack@,
            final(self).scalars() == scalar_step(old(self).scalars(), *ins),
    {
        match ins {
            Instr::StoreConstStr(d, s) => {
                let v = s.dup();
                self.strs.regs[*d as usize] = v;
            },
            Instr::StoreConstInt(d, v) => {
                self.ints.regs[*d as usize] = *v;
            },
            Instr::StoreConstFloat(d, v) => {
                self.floats.regs[*d as usize] = *v;
            },
            Instr::MovInt(d, s) => {
                let v = self.ints.regs[*s as usize];
                self.ints.regs[*d as usize] = v;
            },
            Instr::MovFloat(d, s) => {
                let v = self.floats.regs[*s as usize];
                self.floats.regs[*d as usize] = v;
                proof {
                    assert(exists|w: FloatVal|
                        self.scalars().floats == old(self).scalars().floats.update(
                            *d as int,
                            w,
                        )) by {
                        assert(self.scalars().floats == old(self).scalars().floats.update(
                            *d as int,
                            v,
                        ));
                    }
                }
            },
            Instr::MovStr(d, s) => {
                let v = self.strs.regs[*s as usize].dup();
                self.strs.regs[*d as usize] = v;
            },
            Instr::IntToStr(d, s) => {
                let v = crate::convert::int_to_str(self.ints.regs[*s as usize]);
                self.strs.regs[*d as usize] = v;
            },
            Instr::StrToInt(d, s) => {
                let v = crate::convert::str_to_int(&self.strs.regs[*s as usize]);
                self.ints.regs[*d as usize] = v;
            },
            Instr::HexStrToInt(d, s) => {
                let v = crate::convert::hex_str_to_int(&self.strs.regs[*s as usize]);
                self.ints.regs[*d as usize] = v;
            },
            Instr::AddInt(d, l, r) => {
                let v = crate::convert::wrap_add(
                    self.ints.regs[*l as usize],
                    self.ints.regs[*r as usize],
                );
                self.ints.regs[*d as usize] = v;
            },
            Instr::MinusInt(d, l, r) => {
                let v = crate::convert::wrap_sub(
                    self.ints.regs[*l as usize],
                    self.ints.regs[*r as usize],
                );
                self.ints.regs[*d as usize] = v;
            },
            Instr::MulInt(d, l, r) => {
                let v = crate::convert::wrap_mul(
                    self.ints.regs[*l as usize],
                    self.ints.regs[*r as usize],
                );
                self.ints.regs[*d as usize] = v;
            },
            Instr::ModInt(d, l, r) => {
                let v = crate::convert::rem_i64(
                    self.ints.regs[*l as usize],
                    self.ints.regs[*r as usize],
                );
                self.ints.regs[*d as usize] = v;
            },
            Instr::NegInt(d, s) => {
                let v = crate::convert::wrap_negate(self.ints.regs[*s as usize]);
                self.ints.regs[*d as usize] = v;
            },
            Instr::Not(d, s) => {
                let v: i64 = if self.ints.regs[*s as usize] == 0 {
                    1
                } else {
                    0
                };
                self.ints.regs[*d as usize] = v;
            },
            Instr::NotStr(d, s) => {
                let v: i64 = if self.strs.regs[*s as usize].len() == 0 {
                    1
                } else {
                    0
                };
                self.ints.regs[*d as usize] = v;
            },
            Instr::CmpInt(op, d, l, r) => {
                let a = self.ints.regs[*l as usize];
                let b = self.ints.regs[*r as usize];
                let t: bool = match op {
                    CmpOp::Lt => a < b,
                    CmpOp::Gt => a > b,
                    CmpOp::Le => a <= b,
                    CmpOp::Ge => a >= b,
                    CmpOp::Eq => a == b,
                };
                self.ints.regs[*d as usize] = if t {
                    1
                } else {
                    0
                };
            },
            Instr::CmpStr(op, d, l, r) => {
                let c = self.strs.regs[*l as usize].cmp_str(&self.strs.regs[*r as usize]);
                let t: bool = match op {
                    CmpOp::Lt => c < 0,
                    CmpOp::Gt => c > 0,
                    CmpOp::Le => c <= 0,
                    CmpOp::Ge => c >= 0,
                    CmpOp::Eq => c == 0,
                };
                self.ints.regs[*d as usize] = if t {
                    1
                } else {
                    0
                };
            },
            Instr::Concat(d, l, r) => {
                let v = Str::concat(&self.strs.regs[*l as usize], &self.strs.regs[*r as usize]);
                self.strs.regs[*d as usize] = v;
            },
            Instr::LenStr(d, s) => {
                let v = self.strs.regs[*s as usize].len_int();
                self.ints.regs[*d as usize] = v;
            },
            Instr::Substr(d, b, l, r) => {
                let v = self.strs.regs[*b as usize].substr(
                    self.ints.regs[*l as usize],
                    self.ints.regs[*r as usize],
                );
                self.strs.regs[*d as usize] = v;
            },
            Instr::SubstrIndex(d, s, t) => {
                let v = self.strs.regs[*s as usize].index_of(&self.strs.regs[*t as usize]);
                self.ints.regs[*d as usize] = v;
            },
            Instr::EscapeCSV(d, s) => {
                let v = crate::convert::escape_csv(&self.strs.regs[*s as usize]);
                self.strs.regs[*d as usize] = v;
            },
            Instr::EscapeTSV(d, s) => {
                let v = crate::convert::escape_tsv(&self.strs.regs[*s as usize]);
                self.strs.regs[*d as usize] = v;
            },
            _ => {},
        }
    }

    /// The float opcodes: arithmetic, comparisons, conversions and the
    /// random source. Values are computed by the host; the banks and the
    /// seed bookkeeping are the library's.
    #[verifier::rlimit(100)]
    fn exec_float<H: FloatHost>(
        &mut self,
        ins: &Instr,
        host: &mut H,
        Ghost(nf): Ghost<int>,
        Ghost(fl): Ghost<int>,
    )
        requires
            old(self).wf(),
            instr_wf(*ins, old(self).spec_counts(), nf, fl),
        ensures
            final(self).wf(),
            final(self).spec_counts() == old(self).spec_counts(),
            final(self).stack@ == old(self).stack@,
            float_step_frame(old(self).scalars(), final(self).scalars(), *ins),
            rand_step(
                old(self).rand_model(),
                final(self).rand_model(),
                old(self).scalars(),
                final(self).scalars(),
                *ins,
            ),
    {
        match ins {
            Instr::AddFloat(d, l, r) => {
                let v = host.f_add(self.floats.regs[*l as usize], self.floats.regs[*r as usize]);
                self.floats.regs[*d as usize] = v;
                proof {
                    assert(exists|w: FloatVal|
                        self.scalars().floats == old(self).scalars().floats.update(
                            *d as int,
                            w,
                        )) by {
                        assert(self.scalars().floats == old(self).scalars().floats.update(
                            *d as int,
                            v,
                        ));
                    }
                }
            },
            Instr::MinusFloat(d, l, r) => {
                let v = host.f_sub(self.floats.regs[*l as usize], self.floats.regs[*r as usize]);
                self.floats.regs[*d as usize] = v;
                proof {
                    assert(exists|w: FloatVal|
                        self.scalars().floats == old(self).scalars().floats.update(
                            *d as int,
                            w,
                        )) by {
                        assert(self.scalars().floats == old(self).scalars().floats.update(
                            *d as int,
                            v,
                        ));
                    }
                }
            },
            Instr::MulFloat(d, l, r) => {
                let v = host.f_mul(self.floats.regs[*l as usize], self.floats.regs[*r as usize]);
                self.floats.regs[*d as usize] = v;
                proof {
                    assert(exists|w: FloatVal|
                        self.scalars().floats == old(self).scalars().floats.update(
                            *d as int,
                            w,
                        )) by {
                        assert(self.scalars().floats == old(self).scalars().floats.update(
                            *d as int,
                            v,
                        ));
                    }
                }
            },
            Instr::Div(d, l, r) => {
                let v = host.f_div(self.floats.regs[*l as usize], self.floats.regs[*r as usize]);
                self.floats.regs[*d as usize] = v;
                proof {
                    assert(exists|w: FloatVal|
                        self.scalars().floats == old(self).scalars().floats.update(
                            *d as int,
                            w,
                        )) by {
                        assert(self.scalars().floats == old(self).scalars().floats.update(
                            *d as int,
                            v,
                        ));
                    }
                }
            },
            Instr::ModFloat(d, l, r) => {
                let v = host.f_mod(self.floats.regs[*l as usize], self.floats.regs[*r as usize]);
                self.floats.regs[*d as usize] = v;
                proof {
                    assert(exists|w: FloatVal|
                        self.scalars().floats == old(self).scalars().floats.update(
                            *d as int,
                            w,
                        )) by {
                        assert(self.scalars().floats == old(self).scalars().floats.update(
                            *d as int,
                            v,
                        ));
                    }
                }
            },
            Instr::Pow(d, l, r) => {
                let v = host.f2(
                    crate::float::Float2Op::Pow,
                    self.floats.regs[*l as usize],
                    self.floats.regs[*r as usize],
                );
                self.floats.regs[*d as usize] = v;
                proof {
                    assert(exists|w: FloatVal|
                        self.scalars().floats == old(self).scalars().floats.update(
                            *d as int,
                            w,
                        )) by {
                        assert(self.scalars().floats == old(self).scalars().floats.update(
                            *d as int,
                            v,
                        ));
                    }
                }
            },
            Instr::NegFloat(d, s) => {
                let v = self.floats.regs[*s as usize].negate();
                self.floats.regs[*d as usize] = v;
                proof {
                    assert(exists|w: FloatVal|
                        self.scalars().floats == old(self).scalars().floats.update(
                            *d as int,
                            w,
                        )) by {
                        assert(self.scalars().floats == old(self).scalars().floats.update(
                            *d as int,
                            v,
                        ));
                    }
                }
            },
            Instr::Float1(op, d, s) => {
                let v = host.f1(*op, self.floats.regs[*s as usize]);
                self.floats.regs[*d as usize] = v;
                proof {
                    assert(exists|w: FloatVal|
                        self.scalars().floats == old(self).scalars().floats.update(
                            *d as int,
                            w,
                        )) by {
                        assert(self.scalars().floats == old(self).scalars().floats.update(
                            *d as int,
                            v,
                        ));
                    }
                }
            },
            Instr::Float2(op, d, x, y) => {
                let v = host.f2(*op, self.floats.regs[*x as usize], self.floats.regs[*y as usize]);
                self.floats.regs[*d as usize] = v;
                proof {
                    assert(exists|w: FloatVal|
                        self.scalars().floats == old(self).scalars().floats.update(
                            *d as int,
                            w,
                        )) by {
                        assert(self.scalars().floats == old(self).scalars().floats.update(
                            *d as int,
                            v,
                        ));
                    }
                }
            },
            Instr::CmpFloat(op, d, l, r) => {
                let fop = match op {
                    CmpOp::Lt => FloatCmpOp::Lt,
                    CmpOp::Gt => FloatCmpOp::Gt,
                    CmpOp::Le => FloatCmpOp::Le,
                    CmpOp::Ge => FloatCmpOp::Ge,
                    CmpOp::Eq => FloatCmpOp::Eq,
                };
                let t = host.f_cmp(fop, self.floats.regs[*l as usize], self.floats.regs[*r as usize]);
                self.ints.regs[*d as usize] = if t {
                    1
                } else {
                    0
                };
                proof {
                    if t {
                        assert(self.scalars().ints == old(self).scalars().ints.update(
                            *d as int,
                            1i64,
                        ));
                    } else {
                        assert(self.scalars().ints == old(self).scalars().ints.update(
                            *d as int,
                            0i64,
                        ));
                    }
                }
            },
            Instr::FloatToStr(d, s) => {
                let text = host.format_float(self.floats.regs[*s as usize]);
                let ghost tv = text@;
                self.strs.regs[*d as usize] = Str::from_vec(text);
                proof {
                    assert(self.scalars().strs =~= old(self).scalars().strs.update(
                        *d as int,
                        tv,
                    ));
                    assert(exists|t2: Seq<u8>|
                        self.scalars().strs == old(self).scalars().strs.update(
                            *d as int,
                            t2,
                        )) by {
                        assert(self.scalars().strs == old(self).scalars().strs.update(
                            *d as int,
                            tv,
                        ));
                    }
                }
            },
            Instr::StrToFloat(d, s) => {
                let v = parse_float_of(host, &self.strs.regs[*s as usize]);
                self.floats.regs[*d as usize] = v;
                proof {
                    assert(exists|w: FloatVal|
                        self.scalars().floats == old(self).scalars().floats.update(
                            *d as int,
                            w,
                        )) by {
                        assert(self.scalars().floats == old(self).scalars().floats.update(
                            *d as int,
                            v,
                        ));
                    }
                }
            },
            Instr::FloatToInt(d, s) => {
                let v = host.float_to_int(self.floats.regs[*s as usize]);
                self.ints.regs[*d as usize] = v;
                proof {
                    assert(exists|w: i64|
                        self.scalars().ints == old(self).scalars().ints.update(
                            *d as int,
                            w,
                        )) by {
                        assert(self.scalars().ints == old(self).scalars().ints.update(
                            *d as int,
                            v,
                        ));
                    }
                }
            },
            Instr::IntToFloat(d, s) => {
                let v = host.int_to_float(self.ints.regs[*s as usize]);
                self.floats.regs[*d as usize] = v;
                proof {
                    assert(exists|w: FloatVal|
                        self.scalars().floats == old(self).scalars().floats.update(
                            *d as int,
                            w,
                        )) by {
                        assert(self.scalars().floats == old(self).scalars().floats.update(
                            *d as int,
                            v,
                        ));
                    }
                }
            },
            Instr::Rand(d) => {
                let bits = self.rand.next_bits();
                let v = host.rand_unit(bits);
                self.floats.regs[*d as usize] = v;
                proof {
                    assert(exists|w: FloatVal|
                        self.scalars().floats == old(self).scalars().floats.update(
                            *d as int,
                            w,
                        )) by {
                        assert(self.scalars().floats == old(self).scalars().floats.update(
                            *d as int,
                            v,
                        ));
                    }
                }
            },
            Instr::Srand(d, s) => {
                let sv = self.ints.regs[*s as usize];
                let seed: u64 = if sv >= 0 {
                    sv as u64
                } else {
                    ((sv as i128) + (crate::convert::TWO64_U128 as i128)) as u64
                };
                let prev = self.rand.current_seed();
                self.rand = crate::rand_src::RandomSource::from_seed(seed);
                let sv2 = seed_to_int(prev);
                self.ints.regs[*d as usize] = sv2;
                proof {
                    assert(exists|w: i64|
                        self.scalars().ints == old(self).scalars().ints.update(
                            *d as int,
                            w,
                        )) by {
                        assert(self.scalars().ints == old(self).scalars().ints.update(
                            *d as int,
                            sv2,
                        ));
                    }
                }
            },
            Instr::ReseedRng(d) => {
                let seed = crate::rand_src::entropy_seed();
                let prev = self.rand.current_seed();
                self.rand = crate::rand_src::RandomSource::from_seed(seed);
                let rv2 = seed_to_int(prev);
                self.ints.regs[*d as usize] = rv2;
                proof {
                    assert(exists|w: i64|
                        self.scalars().ints == old(self).scalars().ints.update(
                            *d as int,
                            w,
                        )) by {
                        assert(self.scalars().ints == old(self).scalars().ints.update(
                            *d as int,
                            rv2,
                        ));
                    }
                }
            },
            _ => {},
        }
    }
}

/// A seed word as a register value (two's complement).
fn seed_to_int(s: u64) -> (r: i64)
    ensures
        r == crate::convert::wrap_pos(s as nat),
{
    if s >= crate::convert::TWO63_U64 {
        ((s as i128) - (crate::convert::TWO64_U128 as i128)) as i64
    } else {
        s as i64
    }
}

/// The float value of a text: the longest float-shaped prefix through the
/// host, positive zero when there is none.
fn parse_float_of<H: FloatHost>(host: &mut H, s: &Str) -> FloatVal {
    let pl = crate::convert::float_prefix(s);
    if pl == 0 {
        FloatVal::zero()
    } else {
        let sb = s.bytes();
        let mut pref: Vec<u8> = Vec::new();
        let mut i: usize = 0;
        while i < pl
            invariant
                i <= pl <= sb@.len(),
            decreases pl - i,
        {
            pref.push(sb[i]);
            i = i + 1;
        }
        host.parse_float(&pref)
    }
}

} // verus!

verus! {

/// A length as a register value, clamped into `i64`.
fn len_to_i64(n: usize) -> (r: i64)
    ensures
        r == crate::str_impl::sat_i64(n as int),
{
    if (n as u128) >= 0x7fff_ffff_ffff_ffff_u128 {
        0x7fff_ffff_ffff_ffff_i64
    } else {
        n as i64
    }
}

impl Interp {
    /// The map opcodes: allocation, lookup, membership, deletion, length,
    /// store, handle copy, and snapshot iteration. A missing key reads as
    /// the value kind's zero. `IterGetNext` on an exhausted iterator is an
    /// error (the compiler must guard it).
    #[verifier::rlimit(100)]
    fn exec_map(&mut self, ins: &Instr, Ghost(nf): Ghost<int>, Ghost(fl): Ghost<int>) -> (r:
        Result<(), VmError>)
        requires
            old(self).wf(),
            instr_wf(*ins, old(self).spec_counts(), nf, fl),
            map_family(*ins),
        ensures
            final(self).wf(),
            final(self).spec_counts() == old(self).spec_counts(),
            final(self).stack@ == old(self).stack@,
            r matches Ok(_) ==> step_scalars(old(self).scalars(), final(self).scalars(), *ins),
            r matches Err(e) ==> err_of(*ins, old(self).scalars(), e) && final(self).scalars()
                == old(self).scalars(),
    {
        match ins {
            Instr::AllocMap(k, d) => {
                let h: usize = match k {
                    MapKind::IntInt => {
                        let h = self.store_ii.len();
                        self.store_ii.push(IntMap::new());
                        h
                    },
                    MapKind::IntFloat => {
                        let h = self.store_if.len();
                        self.store_if.push(IntMap::new());
                        h
                    },
                    MapKind::IntStr => {
                        let h = self.store_is.len();
                        self.store_is.push(IntMap::new());
                        h
                    },
                    MapKind::StrInt => {
                        let h = self.store_si.len();
                        self.store_si.push(StrMap::new());
                        h
                    },
                    MapKind::StrFloat => {
                        let h = self.store_sf.len();
                        self.store_sf.push(StrMap::new());
                        h
                    },
                    MapKind::StrStr => {
                        let h = self.store_ss.len();
                        self.store_ss.push(StrMap::new());
                        h
                    },
                };
                self.set_h(*k, *d, h);
                proof {
                    assert(self.scalars() =~= old(self).scalars());
                }
                proof {
                    assert(step_scalars(old(self).scalars(), self.scalars(), *ins));
                }
                Ok(())
            },
            Instr::Lookup(k, d, m, key) => {
                let h = self.get_h(*k, *m);
                match k {
                    MapKind::IntInt => {
                        let kv = self.ints.regs[*key as usize];
                        let v: i64 = match self.store_ii[h].get_ref(kv) {
                            Some(v) => *v,
                            None => 0,
                        };
                        self.ints.regs[*d as usize] = v;
                        proof {
                            assert(exists|w: i64|
                                self.scalars().ints == old(self).scalars().ints.update(
                                    *d as int,
                                    w,
                                )) by {
                                assert(self.scalars().ints == old(self).scalars().ints.update(
                                    *d as int,
                                    v,
                                ));
                            }
                        }
                    },
                    MapKind::IntFloat => {
                        let kv = self.ints.regs[*key as usize];
                        let v: FloatVal = match self.store_if[h].get_ref(kv) {
                            Some(v) => *v,
                            None => FloatVal::zero(),
                        };
                        self.floats.regs[*d as usize] = v;
                        proof {
                            assert(exists|w: FloatVal|
                                self.scalars().floats == old(self).scalars().floats.update(
                                    *d as int,
                                    w,
                                )) by {
                                assert(self.scalars().floats == old(
                                    self,
                                ).scalars().floats.update(*d as int, v));
                            }
                        }
                    },
                    MapKind::IntStr => {
                        let kv = self.ints.regs[*key as usize];
                        let v: Str = match self.store_is[h].get_ref(kv) {
                            Some(v) => v.dup(),
                            None => Str::empty(),
                        };
                        let ghost tv = v@;
                        self.strs.regs[*d as usize] = v;
                        proof {
                            assert(self.scalars().strs =~= old(self).scalars().strs.update(
                                *d as int,
                                tv,
                            ));
                            assert(exists|w: Seq<u8>|
                                self.scalars().strs == old(self).scalars().strs.update(
                                    *d as int,
                                    w,
                                )) by {
                                assert(self.scalars().strs == old(self).scalars().strs.update(
                                    *d as int,
                                    tv,
                                ));
                            }
                        }
                    },
                    MapKind::StrInt => {
                        let kv = self.strs.regs[*key as usize].dup();
                        let v: i64 = match self.store_si[h].get_ref(&kv) {
                            Some(v) => *v,
                            None => 0,
                        };
                        self.ints.regs[*d as usize] = v;
                        proof {
                            assert(exists|w: i64|
                                self.scalars().ints == old(self).scalars().ints.update(
                                    *d as int,
                                    w,
                                )) by {
                                assert(self.scalars().ints == old(self).scalars().ints.update(
                                    *d as int,
                                    v,
                                ));
                            }
                        }
                    },
                    MapKind::StrFloat => {
                        let kv = self.strs.regs[*key as usize].dup();
                        let v: FloatVal = match self.store_sf[h].get_ref(&kv) {
                            Some(v) => *v,
                            None => FloatVal::zero(),
                        };
                        self.floats.regs[*d as usize] = v;
                        proof {
                            assert(exists|w: FloatVal|
                                self.scalars().floats == old(self).scalars().floats.update(
                                    *d as int,
                                    w,
                                )) by {
                                assert(self.scalars().floats == old(
                                    self,
                                ).scalars().floats.update(*d as int, v));
                            }
                        }
                    },
                    MapKind::StrStr => {
                        let kv = self.strs.regs[*key as usize].dup();
                        let v: Str = match self.store_ss[h].get_ref(&kv) {
                            Some(v) => v.dup(),
                            None => Str::empty(),
                        };
                        let ghost tv = v@;
                        self.strs.regs[*d as usize] = v;
                        proof {
                            assert(self.scalars().strs =~= old(self).scalars().strs.update(
                                *d as int,
                                tv,
                            ));
                            assert(exists|w: Seq<u8>|
                                self.scalars().strs == old(self).scalars().strs.update(
                                    *d as int,
                                    w,
                                )) by {
                                assert(self.scalars().strs == old(self).scalars().strs.update(
                                    *d as int,
                                    tv,
                                ));
                            }
                        }
                    },
                }
                proof {
                    assert(step_scalars(old(self).scalars(), self.scalars(), *ins));
                }
                Ok(())
            },
            Instr::Contains(k, d, m, key) => {
                let h = self.get_h(*k, *m);
                let t: bool = match k {
                    MapKind::IntInt => self.store_ii[h].contains(self.ints.regs[*key as usize]),
                    MapKind::IntFloat => self.store_if[h].contains(self.ints.regs[*key as usize]),
                    MapKind::IntStr => self.store_is[h].contains(self.ints.regs[*key as usize]),
                    MapKind::StrInt => self.store_si[h].contains(&self.strs.regs[*key as usize]),
                    MapKind::StrFloat => self.store_sf[h].contains(&self.strs.regs[*key as usize]),
                    MapKind::StrStr => self.store_ss[h].contains(&self.strs.regs[*key as usize]),
                };
                self.ints.regs[*d as usize] = if t {
                    1
                } else {
                    0
                };
                proof {
                    if t {
                        assert(self.scalars().ints == old(self).scalars().ints.update(
                            *d as int,
                            1i64,
                        ));
                    } else {
                        assert(self.scalars().ints == old(self).scalars().ints.update(
                            *d as int,
                            0i64,
                        ));
                    }
                }
                proof {
                    assert(step_scalars(old(self).scalars(), self.scalars(), *ins));
                }
                Ok(())
            },
            Instr::Delete(k, m, key) => {
                let h = self.get_h(*k, *m);
                match k {
                    MapKind::IntInt => {
                        let kv = self.ints.regs[*key as usize];
                        self.store_ii[h].delete(kv);
                    },
                    MapKind::IntFloat => {
                        let kv = self.ints.regs[*key as usize];
                        self.store_if[h].delete(kv);
                    },
                    MapKind::IntStr => {
                        let kv = self.ints.regs[*key as usize];
                        self.store_is[h].delete(kv);
                    },
                    MapKind::StrInt => {
                        let kv = self.strs.regs[*key as usize].dup();
                        self.store_si[h].delete(&kv);
                    },
                    MapKind::StrFloat => {
                        let kv = self.strs.regs[*key as usize].dup();
                        self.store_sf[h].delete(&kv);
                    },
                    MapKind::StrStr => {
                        let kv = self.strs.regs[*key as usize].dup();
                        self.store_ss[h].delete(&kv);
                    },
                }
                proof {
                    assert(self.scalars() =~= old(self).scalars());
                }
                proof {
                    assert(step_scalars(old(self).scalars(), self.scalars(), *ins));
                }
                Ok(())
            },
            Instr::LenMap(k, d, m) => {
                let h = self.get_h(*k, *m);
                let n: usize = match k {
                    MapKind::IntInt => self.store_ii[h].len(),
                    MapKind::IntFloat => self.store_if[h].len(),
                    MapKind::IntStr => self.store_is[h].len(),
                    MapKind::StrInt => self.store_si[h].len(),
                    MapKind::StrFloat => self.store_sf[h].len(),
                    MapKind::StrStr => self.store_ss[h].len(),
                };
                let lv = len_to_i64(n);
                self.ints.regs[*d as usize] = lv;
                proof {
                    assert(exists|w: i64|
                        self.scalars().ints == old(self).scalars().ints.update(
                            *d as int,
                            w,
                        )) by {
                        assert(self.scalars().ints == old(self).scalars().ints.update(
                            *d as int,
                            lv,
                        ));
                    }
                }
                proof {
                    assert(step_scalars(old(self).scalars(), self.scalars(), *ins));
                }
                Ok(())
            },
            Instr::StoreMap(k, m, key, v) => {
                let h = self.get_h(*k, *m);
                match k {
                    MapKind::IntInt => {
                        let kv = self.ints.regs[*key as usize];
                        let vv = self.ints.regs[*v as usize];
                        self.store_ii[h].insert(kv, vv);
                    },
                    MapKind::IntFloat => {
                        let kv = self.ints.regs[*key as usize];
                        let vv = self.floats.regs[*v as usize];
                        self.store_if[h].insert(kv, vv);
                    },
                    MapKind::IntStr => {
                        let kv = self.ints.regs[*key as usize];
                        let vv = self.strs.regs[*v as usize].dup();
                        self.store_is[h].insert(kv, vv);
                    },
                    MapKind::StrInt => {
                        let kv = self.strs.regs[*key as usize].dup();
                        let vv = self.ints.regs[*v as usize];
                        self.store_si[h].insert(kv, vv);
                    },
                    MapKind::StrFloat => {
                        let kv = self.strs.regs[*key as usize].dup();
                        let vv = self.floats.regs[*v as usize];
                        self.store_sf[h].insert(kv, vv);
                    },
                    MapKind::StrStr => {
                        let kv = self.strs.regs[*key as usize].dup();
                        let vv = self.strs.regs[*v as usize].dup();
                        self.store_ss[h].insert(kv, vv);
                    },
                }
                proof {
                    assert(self.scalars() =~= old(self).scalars());
                }
                proof {
                    assert(step_scalars(old(self).scalars(), self.scalars(), *ins));
                }
                Ok(())
            },
            Instr::MovMap(k, d, s) => {
                let h = self.get_h(*k, *s);
                self.set_h(*k, *d, h);
                proof {
                    assert(self.scalars() =~= old(self).scalars());
                }
                proof {
                    assert(step_scalars(old(self).scalars(), self.scalars(), *ins));
                }
                Ok(())
            },
            Instr::IterBegin(k, d, m) => {
                let h = self.get_h(*k, *m);
                match k {
                    MapKind::IntInt => {
                        let it = self.store_ii[h].to_iter();
                        self.iters_int.regs[*d as usize] = it;
                    },
                    MapKind::IntFloat => {
                        let it = self.store_if[h].to_iter();
                        self.iters_int.regs[*d as usize] = it;
                    },
                    MapKind::IntStr => {
                        let it = self.store_is[h].to_iter();
                        self.iters_int.regs[*d as usize] = it;
                    },
                    MapKind::StrInt => {
                        let it = self.store_si[h].to_iter();
                        self.iters_str.regs[*d as usize] = it;
                    },
                    MapKind::StrFloat => {
                        let it = self.store_sf[h].to_iter();
                        self.iters_str.regs[*d as usize] = it;
                    },
                    MapKind::StrStr => {
                        let it = self.store_ss[h].to_iter();
                        self.iters_str.regs[*d as usize] = it;
                    },
                }
                proof {
                    assert(self.scalars() =~= old(self).scalars());
                }
                proof {
                    assert(step_scalars(old(self).scalars(), self.scalars(), *ins));
                }
                Ok(())
            },
            Instr::IterHasNextInt(d, it) => {
                let t = self.iters_int.regs[*it as usize].has_next();
                self.ints.regs[*d as usize] = if t {
                    1
                } else {
                    0
                };
                proof {
                    if t {
                        assert(self.scalars().ints == old(self).scalars().ints.update(
                            *d as int,
                            1i64,
                        ));
                    } else {
                        assert(self.scalars().ints == old(self).scalars().ints.update(
                            *d as int,
                            0i64,
                        ));
                    }
                }
                proof {
                    assert(step_scalars(old(self).scalars(), self.scalars(), *ins));
                }
                Ok(())
            },
            Instr::IterHasNextStr(d, it) => {
                let t = self.iters_str.regs[*it as usize].has_next();
                self.ints.regs[*d as usize] = if t {
                    1
                } else {
                    0
                };
                proof {
                    if t {
                        assert(self.scalars().ints == old(self).scalars().ints.update(
                            *d as int,
                            1i64,
                        ));
                    } else {
                        assert(self.scalars().ints == old(self).scalars().ints.update(
                            *d as int,
                            0i64,
                        ));
                    }
                }
                proof {
                    assert(step_scalars(old(self).scalars(), self.scalars(), *ins));
                }
                Ok(())
            },
            Instr::IterGetNextInt(d, it) => {
                if !self.iters_int.regs[*it as usize].has_next() {
                    return Err(VmError::IterExhausted);
                }
                let v = self.iters_int.regs[*it as usize].get_next();
                self.ints.regs[*d as usize] = v;
                proof {
                    assert(exists|w: i64|
                        self.scalars().ints == old(self).scalars().ints.update(
                            *d as int,
                            w,
                        )) by {
                        assert(self.scalars().ints == old(self).scalars().ints.update(
                            *d as int,
                            v,
                        ));
                    }
                }
                proof {
                    assert(step_scalars(old(self).scalars(), self.scalars(), *ins));
                }
                Ok(())
            },
            Instr::IterGetNextStr(d, it) => {
                if !self.iters_str.regs[*it as usize].has_next() {
                    return Err(VmError::IterExhausted);
                }
                let v = self.iters_str.regs[*it as usize].get_next();
                let ghost tv = v@;
                self.strs.regs[*d as usize] = v;
                proof {
                    assert(self.scalars().strs =~= old(self).scalars().strs.update(
                        *d as int,
                        tv,
                    ));
                    assert(exists|w: Seq<u8>|
                        self.scalars().strs == old(self).scalars().strs.update(
                            *d as int,
                            w,
                        )) by {
                        assert(self.scalars().strs == old(self).scalars().strs.update(
                            *d as int,
                            tv,
                        ));
                    }
                }
                proof {
                    assert(step_scalars(old(self).scalars(), self.scalars(), *ins));
                }
                Ok(())
            },
            _ => Ok(()),
        }
    }
}

} // verus!

verus! {

impl Interp {
    /// Reset the per-file record number to 0 and set the filename variable
    /// to the read layer's current file, after a change of the primary
    /// input file; the total record count and every other variable keep
    /// their values. Dispatch calls this inside the same opcode that
    /// switched files, so both updates hold before the next read executes.
    fn reset_file_vars(&mut self)
        requires
            old(self).wf(),
        ensures
            final(self).wf(),
            final(self).spec_counts() == old(self).spec_counts(),
            final(self).stack@ == old(self).stack@,
            final(self).scalars() == old(self).scalars(),
            final(self).vars.fnr == 0,
            final(self).vars.filename@ == old(self).read_files.filename_view(),
            final(self).vars.nr == old(self).vars.nr,
            final(self).vars.fs == old(self).vars.fs,
            final(self).vars.ofs == old(self).vars.ofs,
            final(self).vars.rs == old(self).vars.rs,
            final(self).vars.nf == old(self).vars.nf,
            final(self).vars.rstart == old(self).vars.rstart,
            final(self).vars.rlength == old(self).vars.rlength,
            final(self).vars.argc == old(self).vars.argc,
            final(self).vars.argv == old(self).vars.argv,
            final(self).read_files == old(self).read_files,
    {
        self.vars.fnr = 0;
        let name = self.read_files.current_filename();
        self.vars.filename = name;
    }

    /// The first byte of the record separator (newline when `RS` is
    /// empty).
    fn rs_byte(&self) -> u8 {
        let rsv = self.vars.rs.bytes();
        if rsv.len() > 0 {
            rsv[0]
        } else {
            10
        }
    }

    /// The field, regex and split opcodes: reads and writes of `$k`,
    /// joins, match location (feeding the match variables), substitution
    /// and split-to-map.
    #[verifier::rlimit(100)]
    fn exec_line(&mut self, ins: &Instr, Ghost(nf): Ghost<int>, Ghost(fl): Ghost<int>) -> (r:
        Result<(), VmError>)
        requires
            old(self).wf(),
            instr_wf(*ins, old(self).spec_counts(), nf, fl),
            line_family(*ins),
        ensures
            final(self).wf(),
            final(self).spec_counts() == old(self).spec_counts(),
            final(self).stack@ == old(self).stack@,
            r matches Ok(_) ==> step_scalars(old(self).scalars(), final(self).scalars(), *ins)
                && ok_cond(*ins, old(self).scalars()),
            r matches Err(e) ==> err_of(*ins, old(self).scalars(), e) && final(self).scalars()
                == old(self).scalars(),
    {
        match ins {
            Instr::GetColumn(d, s) => {
                let col = self.ints.regs[*s as usize];
                let v = match self.line.get_col(col, &self.vars.fs, &mut self.regexes) {
                    Ok(v) => v,
                    Err(e) => {
                        proof {
                            assert(err_of(*ins, old(self).scalars(), e));
                            assert(self.scalars() =~= old(self).scalars());
                        }
                        return Err(e);
                    },
                };
                let ghost tv = v@;
                self.strs.regs[*d as usize] = v;
                proof {
                    assert(self.scalars().strs =~= old(self).scalars().strs.update(
                        *d as int,
                        tv,
                    ));
                    assert(exists|w: Seq<u8>|
                        self.scalars().strs == old(self).scalars().strs.update(
                            *d as int,
                            w,
                        )) by {
                        assert(self.scalars().strs == old(self).scalars().strs.update(
                            *d as int,
                            tv,
                        ));
                    }
                    assert(step_scalars(old(self).scalars(), self.scalars(), *ins));
                }
                Ok(())
            },
            Instr::SetColumn(d, s) => {
                let col = self.ints.regs[*d as usize];
                let v = self.strs.regs[*s as usize].dup();
                match self.line.set_col(col, &v, &self.vars.ofs, &self.vars.fs, &mut self.regexes) {
                    Ok(_) => {
                        proof {
                            assert(self.scalars() =~= old(self).scalars());
                            assert(step_scalars(old(self).scalars(), self.scalars(), *ins));
                        }
                        Ok(())
                    },
                    Err(e) => {
                        proof {
                            assert(err_of(*ins, old(self).scalars(), e));
                            assert(self.scalars() =~= old(self).scalars());
                        }
                        Err(e)
                    },
                }
            },
            Instr::JoinCSV(d, a, b) => {
                let mut sepv: Vec<u8> = Vec::new();
                sepv.push(44);
                let sep = Str::from_vec(sepv);
                let lo = self.ints.regs[*a as usize];
                let hi = self.ints.regs[*b as usize];
                let v = match self.line.join_cols(
                    lo,
                    hi,
                    &sep,
                    JoinEscape::Csv,
                    &self.vars.fs,
                    &mut self.regexes,
                ) {
                    Ok(v) => v,
                    Err(e) => {
                        proof {
                            assert(self.scalars() =~= old(self).scalars());
                        }
                        return Err(e);
                    },
                };
                let ghost tv = v@;
                self.strs.regs[*d as usize] = v;
                proof {
                    assert(self.scalars().strs =~= old(self).scalars().strs.update(
                        *d as int,
                        tv,
                    ));
                    assert(exists|w: Seq<u8>|
                        self.scalars().strs == old(self).scalars().strs.update(
                            *d as int,
                            w,
                        )) by {
                        assert(self.scalars().strs == old(self).scalars().strs.update(
                            *d as int,
                            tv,
                        ));
                    }
                    assert(step_scalars(old(self).scalars(), self.scalars(), *ins));
                }
                Ok(())
            },
            Instr::JoinTSV(d, a, b) => {
                let mut sepv: Vec<u8> = Vec::new();
                sepv.push(9);
                let sep = Str::from_vec(sepv);
                let lo = self.ints.regs[*a as usize];
                let hi = self.ints.regs[*b as usize];
                let v = match self.line.join_cols(
                    lo,
                    hi,
                    &sep,
                    JoinEscape::Tsv,
                    &self.vars.fs,
                    &mut self.regexes,
                ) {
                    Ok(v) => v,
                    Err(e) => {
                        proof {
                            assert(self.scalars() =~= old(self).scalars());
                        }
                        return Err(e);
                    },
                };
                let ghost tv = v@;
                self.strs.regs[*d as usize] = v;
                proof {
                    assert(self.scalars().strs =~= old(self).scalars().strs.update(
                        *d as int,
                        tv,
                    ));
                    assert(exists|w: Seq<u8>|
                        self.scalars().strs == old(self).scalars().strs.update(
                            *d as int,
                            w,
                        )) by {
                        assert(self.scalars().strs == old(self).scalars().strs.update(
                            *d as int,
                            tv,
                        ));
                    }
                    assert(step_scalars(old(self).scalars(), self.scalars(), *ins));
                }
                Ok(())
            },
            Instr::JoinColumns(d, a, b, sp) => {
                let sep = self.strs.regs[*sp as usize].dup();
                let lo = self.ints.regs[*a as usize];
                let hi = self.ints.regs[*b as usize];
                let v = match self.line.join_cols(
                    lo,
                    hi,
                    &sep,
                    JoinEscape::Plain,
                    &self.vars.fs,
                    &mut self.regexes,
                ) {
                    Ok(v) => v,
                    Err(e) => {
                        proof {
                            assert(self.scalars() =~= old(self).scalars());
                        }
                        return Err(e);
                    },
                };
                let ghost tv = v@;
                self.strs.regs[*d as usize] = v;
                proof {
                    assert(self.scalars().strs =~= old(self).scalars().strs.update(
                        *d as int,
                        tv,
                    ));
                    assert(exists|w: Seq<u8>|
                        self.scalars().strs == old(self).scalars().strs.update(
                            *d as int,
                            w,
                        )) by {
                        assert(self.scalars().strs == old(self).scalars().strs.update(
                            *d as int,
                            tv,
                        ));
                    }
                    assert(step_scalars(old(self).scalars(), self.scalars(), *ins));
                }
                Ok(())
            },
            Instr::Match(d, s, p) => {
                proof {
                    assert(old(self).scalars().strs[*p as int] == self.strs.regs@[*p as int]@);
                }
                let r2 = match self.regexes.match_loc(
                    &self.strs.regs[*p as usize],
                    &self.strs.regs[*s as usize],
                ) {
                    Ok(r2) => r2,
                    Err(e) => {
                        proof {
                            assert(err_of(*ins, old(self).scalars(), e));
                            assert(self.scalars() =~= old(self).scalars());
                        }
                        return Err(e);
                    },
                };
                self.vars.rstart = r2.0;
                self.vars.rlength = r2.1;
                self.ints.regs[*d as usize] = r2.0;
                proof {
                    assert(exists|w: i64|
                        self.scalars().ints == old(self).scalars().ints.update(
                            *d as int,
                            w,
                        )) by {
                        assert(self.scalars().ints == old(self).scalars().ints.update(
                            *d as int,
                            r2.0,
                        ));
                    }
                    assert(step_scalars(old(self).scalars(), self.scalars(), *ins));
                }
                Ok(())
            },
            Instr::IsMatch(d, s, p) => {
                proof {
                    assert(old(self).scalars().strs[*p as int] == self.strs.regs@[*p as int]@);
                }
                let t = match self.regexes.is_match(
                    &self.strs.regs[*p as usize],
                    &self.strs.regs[*s as usize],
                ) {
                    Ok(t) => t,
                    Err(e) => {
                        proof {
                            assert(err_of(*ins, old(self).scalars(), e));
                            assert(self.scalars() =~= old(self).scalars());
                        }
                        return Err(e);
                    },
                };
                self.ints.regs[*d as usize] = if t {
                    1
                } else {
                    0
                };
                proof {
                    if t {
                        assert(self.scalars().ints == old(self).scalars().ints.update(
                            *d as int,
                            1i64,
                        ));
                    } else {
                        assert(self.scalars().ints == old(self).scalars().ints.update(
                            *d as int,
                            0i64,
                        ));
                    }
                    assert(step_scalars(old(self).scalars(), self.scalars(), *ins));
                }
                Ok(())
            },
            Instr::Sub(d, p, rp, t) => {
                proof {
                    assert(old(self).scalars().strs[*p as int] == self.strs.regs@[*p as int]@);
                }
                let out = match self.regexes.subst_first(
                    &self.strs.regs[*p as usize],
                    &self.strs.regs[*rp as usize],
                    &self.strs.regs[*t as usize],
                ) {
                    Ok(o) => o,
                    Err(e) => {
                        proof {
                            assert(err_of(*ins, old(self).scalars(), e));
                            assert(self.scalars() =~= old(self).scalars());
                        }
                        return Err(e);
                    },
                };
                let ghost tv = out.0@;
                let cnt = out.1;
                self.strs.regs[*t as usize] = out.0;
                self.ints.regs[*d as usize] = cnt;
                proof {
                    assert(self.scalars().strs =~= old(self).scalars().strs.update(
                        *t as int,
                        tv,
                    ));
                    assert(exists|txt: Seq<u8>, n2: i64|
                        self.scalars().strs == old(self).scalars().strs.update(
                            *t as int,
                            txt,
                        ) && self.scalars().ints == old(self).scalars().ints.update(
                            *d as int,
                            n2,
                        )) by {
                        assert(self.scalars().strs == old(self).scalars().strs.update(
                            *t as int,
                            tv,
                        ) && self.scalars().ints == old(self).scalars().ints.update(
                            *d as int,
                            cnt,
                        ));
                    }
                    assert(step_scalars(old(self).scalars(), self.scalars(), *ins));
                }
                Ok(())
            },
            Instr::GSub(d, p, rp, t) => {
                proof {
                    assert(old(self).scalars().strs[*p as int] == self.strs.regs@[*p as int]@);
                }
                let out = match self.regexes.subst_all(
                    &self.strs.regs[*p as usize],
                    &self.strs.regs[*rp as usize],
                    &self.strs.regs[*t as usize],
                ) {
                    Ok(o) => o,
                    Err(e) => {
                        proof {
                            assert(err_of(*ins, old(self).scalars(), e));
                            assert(self.scalars() =~= old(self).scalars());
                        }
                        return Err(e);
                    },
                };
                let ghost tv = out.0@;
                let cnt = out.1;
                self.strs.regs[*t as usize] = out.0;
                self.ints.regs[*d as usize] = cnt;
                proof {
                    assert(self.scalars().strs =~= old(self).scalars().strs.update(
                        *t as int,
                        tv,
                    ));
                    assert(exists|txt: Seq<u8>, n2: i64|
                        self.scalars().strs == old(self).scalars().strs.update(
                            *t as int,
                            txt,
                        ) && self.scalars().ints == old(self).scalars().ints.update(
                            *d as int,
                            n2,
                        )) by {
                        assert(self.scalars().strs == old(self).scalars().strs.update(
                            *t as int,
                            tv,
                        ) && self.scalars().ints == old(self).scalars().ints.update(
                            *d as int,
                            cnt,
                        ));
                    }
                    assert(step_scalars(old(self).scalars(), self.scalars(), *ins));
                }
                Ok(())
            },
            Instr::SplitInt(fd, s, arr, pat) => {
                proof {
                    assert(old(self).scalars().strs[*pat as int] == self.strs.regs@[
                        *pat as int]@);
                }
                let pieces = match crate::line::split_text(
                    &self.strs.regs[*s as usize],
                    &self.strs.regs[*pat as usize],
                    &mut self.regexes,
                ) {
                    Ok(p2) => p2,
                    Err(e) => {
                        proof {
                            assert(err_of(*ins, old(self).scalars(), e));
                            assert(self.scalars() =~= old(self).scalars());
                        }
                        return Err(e);
                    },
                };
                let h = self.get_h(MapKind::IntStr, *arr);
                self.store_is[h].clear();
                let n: usize = pieces.len();
                let mut i: usize = 0;
                while i < n && (i as u128) < 0x7fff_ffff_ffff_fffe_u128
                    invariant
                        self.wf(),
                        self.spec_counts() == old(self).spec_counts(),
                        self.stack@ == old(self).stack@,
                        self.scalars() == old(self).scalars(),
                        h < self.store_is@.len(),
                        i <= n == pieces@.len(),
                    decreases n - i,
                {
                    let key: i64 = (i as i64) + 1;
                    let v = pieces[i].dup();
                    self.store_is[h].insert(key, v);
                    i = i + 1;
                }
                let lv = len_to_i64(n);
                self.ints.regs[*fd as usize] = lv;
                proof {
                    assert(exists|w: i64|
                        self.scalars().ints == old(self).scalars().ints.update(
                            *fd as int,
                            w,
                        )) by {
                        assert(self.scalars().ints == old(self).scalars().ints.update(
                            *fd as int,
                            lv,
                        ));
                    }
                    assert(step_scalars(old(self).scalars(), self.scalars(), *ins));
                }
                Ok(())
            },
            Instr::SplitStr(fd, s, arr, pat) => {
                proof {
                    assert(old(self).scalars().strs[*pat as int] == self.strs.regs@[
                        *pat as int]@);
                }
                let pieces = match crate::line::split_text(
                    &self.strs.regs[*s as usize],
                    &self.strs.regs[*pat as usize],
                    &mut self.regexes,
                ) {
                    Ok(p2) => p2,
                    Err(e) => {
                        proof {
                            assert(err_of(*ins, old(self).scalars(), e));
                            assert(self.scalars() =~= old(self).scalars());
                        }
                        return Err(e);
                    },
                };
                let h = self.get_h(MapKind::StrStr, *arr);
                self.store_ss[h].clear();
                let n: usize = pieces.len();
                let mut i: usize = 0;
                while i < n && (i as u128) < 0x7fff_ffff_ffff_fffe_u128
                    invariant
                        self.wf(),
                        self.spec_counts() == old(self).spec_counts(),
                        self.stack@ == old(self).stack@,
                        self.scalars() == old(self).scalars(),
                        h < self.store_ss@.len(),
                        i <= n == pieces@.len(),
                    decreases n - i,
                {
                    let key = crate::convert::int_to_str((i as i64) + 1);
                    let v = pieces[i].dup();
                    self.store_ss[h].insert(key, v);
                    i = i + 1;
                }
                let lv = len_to_i64(n);
                self.ints.regs[*fd as usize] = lv;
                proof {
                    assert(exists|w: i64|
                        self.scalars().ints == old(self).scalars().ints.update(
                            *fd as int,
                            w,
                        )) by {
                        assert(self.scalars().ints == old(self).scalars().ints.update(
                            *fd as int,
                            lv,
                        ));
                    }
                    assert(step_scalars(old(self).scalars(), self.scalars(), *ins));
                }
                Ok(())
            },
            _ => Ok(()),
        }
    }
}

} // verus!

verus! {

impl Interp {
    /// The output and input opcodes. A failed write stops the program
    /// successfully (`Flow::Stop`); a failed close is an error; read
    /// failures report through `ReadErr`'s value instead of aborting.
    #[verifier::rlimit(100)]
    fn exec_io<H: IoHost + FloatHost>(
        &mut self,
        ins: &Instr,
        host: &mut H,
        Ghost(nf): Ghost<int>,
        Ghost(fl): Ghost<int>,
    ) -> (r: Result<Flow, VmError>)
        requires
            old(self).wf(),
            instr_wf(*ins, old(self).spec_counts(), nf, fl),
            io_family(*ins),
        ensures
            final(self).wf(),
            final(self).spec_counts() == old(self).spec_counts(),
            final(self).stack@ == old(self).stack@,
            (match r {
                Ok(fl2) => (fl2 is Next ==> step_scalars(
                    old(self).scalars(),
                    final(self).scalars(),
                    *ins,
                )) && (fl2 is Stop ==> is_output_instr(*ins) && final(self).scalars() == old(
                    self,
                ).scalars()),
                Err(e) => err_of(*ins, old(self).scalars(), e) && final(self).scalars()
                    == old(self).scalars(),
            }),
    {
        match ins {
            Instr::PrintStdout(t) => {
                let ok = self.write_files.write_stdout(host, &self.strs.regs[*t as usize]);
                proof {
                    assert(self.scalars() =~= old(self).scalars());
                    assert(step_scalars(old(self).scalars(), self.scalars(), *ins));
                }
                if ok {
                    Ok(Flow::Next)
                } else {
                    Ok(Flow::Stop)
                }
            },
            Instr::Print(t, o, append) => {
                let path = self.strs.regs[*o as usize].dup();
                let ok = self.write_files.write_file(
                    host,
                    &path,
                    &self.strs.regs[*t as usize],
                    *append,
                );
                proof {
                    assert(self.scalars() =~= old(self).scalars());
                    assert(step_scalars(old(self).scalars(), self.scalars(), *ins));
                }
                if ok {
                    Ok(Flow::Next)
                } else {
                    Ok(Flow::Stop)
                }
            },
            Instr::Sprintf { dst, fmt, args } => {
                let fargs = self.gather_args(args);
                let out = crate::printf::sprintf(host, &self.strs.regs[*fmt as usize], &fargs);
                let ghost tv = out@;
                self.strs.regs[*dst as usize] = out;
                proof {
                    assert(self.scalars().strs =~= old(self).scalars().strs.update(
                        *dst as int,
                        tv,
                    ));
                    assert(exists|w: Seq<u8>|
                        self.scalars().strs == old(self).scalars().strs.update(
                            *dst as int,
                            w,
                        )) by {
                        assert(self.scalars().strs == old(self).scalars().strs.update(
                            *dst as int,
                            tv,
                        ));
                    }
                    assert(step_scalars(old(self).scalars(), self.scalars(), *ins));
                }
                Ok(Flow::Next)
            },
            Instr::Printf { output, fmt, args } => {
                let fargs = self.gather_args(args);
                let out = crate::printf::sprintf(host, &self.strs.regs[*fmt as usize], &fargs);
                let ok = match output {
                    Some((o, append)) => {
                        let path = self.strs.regs[*o as usize].dup();
                        self.write_files.write_file(host, &path, &out, *append)
                    },
                    None => self.write_files.write_stdout(host, &out),
                };
                proof {
                    assert(self.scalars() =~= old(self).scalars());
                    assert(step_scalars(old(self).scalars(), self.scalars(), *ins));
                }
                if ok {
                    Ok(Flow::Next)
                } else {
                    Ok(Flow::Stop)
                }
            },
            Instr::Close(f) => {
                let path = self.strs.regs[*f as usize].dup();
                let okc = self.write_files.close_file(host, &path);
                self.read_files.close_named(&path, host);
                proof {
                    assert(self.scalars() =~= old(self).scalars());
                    assert(step_scalars(old(self).scalars(), self.scalars(), *ins));
                }
                if okc {
                    Ok(Flow::Next)
                } else {
                    Err(VmError::CloseFailed)
                }
            },
            Instr::ReadErr(d, f) => {
                let path = self.strs.regs[*f as usize].dup();
                let e = self.read_files.read_err_named(&path, host);
                self.ints.regs[*d as usize] = e;
                proof {
                    assert(exists|w: i64|
                        self.scalars().ints == old(self).scalars().ints.update(
                            *d as int,
                            w,
                        )) by {
                        assert(self.scalars().ints == old(self).scalars().ints.update(
                            *d as int,
                            e,
                        ));
                    }
                    assert(step_scalars(old(self).scalars(), self.scalars(), *ins));
                }
                Ok(Flow::Next)
            },
            Instr::NextLine(d, f) => {
                let rsb = self.rs_byte();
                let path = self.strs.regs[*f as usize].dup();
                let line = self.read_files.next_record_named(&path, rsb, host);
                let v = match line {
                    Some(l) => l,
                    None => Str::empty(),
                };
                let ghost tv = v@;
                self.strs.regs[*d as usize] = v;
                proof {
                    assert(self.scalars().strs =~= old(self).scalars().strs.update(
                        *d as int,
                        tv,
                    ));
                    assert(exists|w: Seq<u8>|
                        self.scalars().strs == old(self).scalars().strs.update(
                            *d as int,
                            w,
                        )) by {
                        assert(self.scalars().strs == old(self).scalars().strs.update(
                            *d as int,
                            tv,
                        ));
                    }
                    assert(step_scalars(old(self).scalars(), self.scalars(), *ins));
                }
                Ok(Flow::Next)
            },
            Instr::ReadErrStdin(d) => {
                let e = self.read_files.read_err_main();
                self.ints.regs[*d as usize] = e;
                proof {
                    assert(exists|w: i64|
                        self.scalars().ints == old(self).scalars().ints.update(
                            *d as int,
                            w,
                        )) by {
                        assert(self.scalars().ints == old(self).scalars().ints.update(
                            *d as int,
                            e,
                        ));
                    }
                    assert(step_scalars(old(self).scalars(), self.scalars(), *ins));
                }
                Ok(Flow::Next)
            },
            Instr::NextLineStdin(d) => {
                let rsb = self.rs_byte();
                let out = self.read_files.next_record_main(rsb, host);
                if out.1 {
                    self.reset_file_vars();
                }
                let v = match out.0 {
                    Some(l) => l,
                    None => Str::empty(),
                };
                let ghost tv = v@;
                self.strs.regs[*d as usize] = v;
                proof {
                    assert(self.scalars().strs =~= old(self).scalars().strs.update(
                        *d as int,
                        tv,
                    ));
                    assert(exists|w: Seq<u8>|
                        self.scalars().strs == old(self).scalars().strs.update(
                            *d as int,
                            w,
                        )) by {
                        assert(self.scalars().strs == old(self).scalars().strs.update(
                            *d as int,
                            tv,
                        ));
                    }
                    assert(step_scalars(old(self).scalars(), self.scalars(), *ins));
                }
                Ok(Flow::Next)
            },
            Instr::NextLineStdinFused => {
                let rsb = self.rs_byte();
                let out = self.read_files.next_record_main(rsb, host);
                if out.1 {
                    self.reset_file_vars();
                }
                let v = match out.0 {
                    Some(l) => l,
                    None => Str::empty(),
                };
                self.line.set_record(v);
                proof {
                    assert(self.scalars() =~= old(self).scalars());
                    assert(step_scalars(old(self).scalars(), self.scalars(), *ins));
                }
                Ok(Flow::Next)
            },
            Instr::NextFile => {
                self.read_files.next_file();
                self.reset_file_vars();
                proof {
                    assert(self.scalars() =~= old(self).scalars());
                    assert(step_scalars(old(self).scalars(), self.scalars(), *ins));
                }
                Ok(Flow::Next)
            },
            _ => Ok(Flow::Next),
        }
    }

    /// The scalar arguments of a `printf`/`sprintf` instruction, gathered
    /// from their banks.
    fn gather_args(&self, args: &Vec<(ScalarKind, u32)>) -> (r: Vec<FmtArg>)
        requires
            self.wf(),
            forall|k: int|
                0 <= k < args@.len() ==> (#[trigger] args@[k]).1 < scalar_count(
                    self.spec_counts(),
                    args@[k].0,
                ),
    {
        let n: usize = args.len();
        let mut r: Vec<FmtArg> = Vec::new();
        let mut i: usize = 0;
        while i < n
            invariant
                self.wf(),
                i <= n == args@.len(),
                forall|k: int|
                    0 <= k < args@.len() ==> (#[trigger] args@[k]).1 < scalar_count(
                        self.spec_counts(),
                        args@[k].0,
                    ),
            decreases n - i,
        {
            let (kind, reg) = args[i];
            proof {
                assert(args@[i as int].1 < scalar_count(self.spec_counts(), args@[i as int].0));
            }
            let a: FmtArg = match kind {
                ScalarKind::Int => FmtArg::I(self.ints.regs[reg as usize]),
                ScalarKind::Float => FmtArg::F(self.floats.regs[reg as usize]),
                ScalarKind::Str => FmtArg::S(self.strs.regs[reg as usize].dup()),
            };
            r.push(a);
            i = i + 1;
        }
        r
    }

    /// The variable, parameter-stack and reserved slot opcodes. Loading
    /// the field count forces the line engine to compute it first, so a
    /// value stored to the field-count variable is kept in the cell but
    /// overwritten by the next load: such writes never resize the current
    /// record. That is this implementation's documented choice for direct
    /// field-count writes.
    #[verifier::rlimit(100)]
    fn exec_vars_stack(&mut self, ins: &Instr, Ghost(nf): Ghost<int>, Ghost(fl): Ghost<int>)
        -> (r: Result<(), VmError>)
        requires
            old(self).wf(),
            instr_wf(*ins, old(self).spec_counts(), nf, fl),
            vars_family(*ins),
        ensures
            final(self).wf(),
            final(self).spec_counts() == old(self).spec_counts(),
            final(self).stack@ == old(self).stack@,
            r matches Ok(_) ==> step_scalars(old(self).scalars(), final(self).scalars(), *ins)
                && ok_cond(*ins, old(self).scalars()),
            r matches Err(e) ==> err_of(*ins, old(self).scalars(), e) && final(self).scalars()
                == old(self).scalars(),
    {
        match ins {
            Instr::LoadVarStr(d, var) => {
                let v = match self.vars.load_str(*var) {
                    Ok(v) => v,
                    Err(e) => {
                        proof {
                            assert(err_of(*ins, old(self).scalars(), e));
                            assert(self.scalars() =~= old(self).scalars());
                        }
                        return Err(e);
                    },
                };
                let ghost tv = v@;
                self.strs.regs[*d as usize] = v;
                proof {
                    assert(self.scalars().strs =~= old(self).scalars().strs.update(
                        *d as int,
                        tv,
                    ));
                    assert(exists|w: Seq<u8>|
                        self.scalars().strs == old(self).scalars().strs.update(
                            *d as int,
                            w,
                        )) by {
                        assert(self.scalars().strs == old(self).scalars().strs.update(
                            *d as int,
                            tv,
                        ));
                    }
                    assert(step_scalars(old(self).scalars(), self.scalars(), *ins));
                }
                Ok(())
            },
            Instr::StoreVarStr(var, s) => {
                let v = self.strs.regs[*s as usize].dup();
                let is_fs = match var {
                    Variable::FS => true,
                    _ => false,
                };
                match self.vars.store_str(*var, v) {
                    Ok(_) => {
                        if is_fs {
                            self.line.invalidate();
                        }
                        proof {
                            assert(self.scalars() =~= old(self).scalars());
                            assert(step_scalars(old(self).scalars(), self.scalars(), *ins));
                        }
                        Ok(())
                    },
                    Err(e) => {
                        proof {
                            assert(err_of(*ins, old(self).scalars(), e));
                            assert(self.scalars() =~= old(self).scalars());
                        }
                        Err(e)
                    },
                }
            },
            Instr::LoadVarInt(d, var) => {
                let is_nf = match var {
                    Variable::NF => true,
                    _ => false,
                };
                if is_nf {
                    let nfv = match self.line.nf(&self.vars.fs, &mut self.regexes) {
                        Ok(v) => v,
                        Err(e) => {
                            proof {
                                assert(err_of(*ins, old(self).scalars(), e));
                                assert(self.scalars() =~= old(self).scalars());
                            }
                            return Err(e);
                        },
                    };
                    self.vars.nf = nfv;
                }
                let v = match self.vars.load_int(*var) {
                    Ok(v) => v,
                    Err(e) => {
                        proof {
                            assert(err_of(*ins, old(self).scalars(), e));
                            assert(self.scalars() =~= old(self).scalars());
                        }
                        return Err(e);
                    },
                };
                self.ints.regs[*d as usize] = v;
                proof {
                    assert(exists|w: i64|
                        self.scalars().ints == old(self).scalars().ints.update(
                            *d as int,
                            w,
                        )) by {
                        assert(self.scalars().ints == old(self).scalars().ints.update(
                            *d as int,
                            v,
                        ));
                    }
                    assert(step_scalars(old(self).scalars(), self.scalars(), *ins));
                }
                Ok(())
            },
            Instr::StoreVarInt(var, s) => {
                let v = self.ints.regs[*s as usize];
                match self.vars.store_int(*var, v) {
                    Ok(_) => {
                        proof {
                            assert(self.scalars() =~= old(self).scalars());
                            assert(step_scalars(old(self).scalars(), self.scalars(), *ins));
                        }
                        Ok(())
                    },
                    Err(e) => {
                        proof {
                            assert(err_of(*ins, old(self).scalars(), e));
                            assert(self.scalars() =~= old(self).scalars());
                        }
                        Err(e)
                    },
                }
            },
            Instr::LoadVarIntMap(d, var) => {
                let h = match self.vars.load_intmap(*var) {
                    Ok(h) => h,
                    Err(e) => {
                        proof {
                            assert(err_of(*ins, old(self).scalars(), e));
                            assert(self.scalars() =~= old(self).scalars());
                        }
                        return Err(e);
                    },
                };
                self.m_is.regs[*d as usize] = h;
                proof {
                    assert(self.scalars() =~= old(self).scalars());
                    assert(step_scalars(old(self).scalars(), self.scalars(), *ins));
                }
                Ok(())
            },
            Instr::StoreVarIntMap(var, s) => {
                let h = self.m_is.regs[*s as usize];
                match self.vars.store_intmap(*var, h) {
                    Ok(_) => {
                        proof {
                            assert(self.scalars() =~= old(self).scalars());
                            assert(step_scalars(old(self).scalars(), self.scalars(), *ins));
                        }
                        Ok(())
                    },
                    Err(e) => {
                        proof {
                            assert(err_of(*ins, old(self).scalars(), e));
                            assert(self.scalars() =~= old(self).scalars());
                        }
                        Err(e)
                    },
                }
            },
            Instr::Push(t, reg) => {
                match t {
                    OpType::Int => {
                        let v = self.ints.regs[*reg as usize];
                        self.ints.stack.push(v);
                    },
                    OpType::Float => {
                        let v = self.floats.regs[*reg as usize];
                        self.floats.stack.push(v);
                    },
                    OpType::Str => {
                        let v = self.strs.regs[*reg as usize].dup();
                        self.strs.stack.push(v);
                    },
                    OpType::OfMap(k) => {
                        let h = self.get_h(*k, *reg);
                        match k {
                            MapKind::IntInt => self.m_ii.stack.push(h),
                            MapKind::IntFloat => self.m_if.stack.push(h),
                            MapKind::IntStr => self.m_is.stack.push(h),
                            MapKind::StrInt => self.m_si.stack.push(h),
                            MapKind::StrFloat => self.m_sf.stack.push(h),
                            MapKind::StrStr => self.m_ss.stack.push(h),
                        }
                    },
                }
                proof {
                    assert(self.scalars() =~= old(self).scalars());
                    assert(step_scalars(old(self).scalars(), self.scalars(), *ins));
                }
                Ok(())
            },
            Instr::Pop(t, reg) => {
                match t {
                    OpType::Int => {
                        match self.ints.stack.pop() {
                            Some(v) => {
                                self.ints.regs[*reg as usize] = v;
                                proof {
                                    assert(exists|w: i64|
                                        self.scalars().ints == old(
                                            self,
                                        ).scalars().ints.update(*reg as int, w)) by {
                                        assert(self.scalars().ints == old(
                                            self,
                                        ).scalars().ints.update(*reg as int, v));
                                    }
                                    assert(step_scalars(
                                        old(self).scalars(),
                                        self.scalars(),
                                        *ins,
                                    ));
                                }
                                Ok(())
                            },
                            None => {
                                proof {
                                    assert(self.scalars() =~= old(self).scalars());
                                }
                                Err(VmError::StackEmpty)
                            },
                        }
                    },
                    OpType::Float => {
                        match self.floats.stack.pop() {
                            Some(v) => {
                                self.floats.regs[*reg as usize] = v;
                                proof {
                                    assert(exists|w: FloatVal|
                                        self.scalars().floats == old(
                                            self,
                                        ).scalars().floats.update(*reg as int, w)) by {
                                        assert(self.scalars().floats == old(
                                            self,
                                        ).scalars().floats.update(*reg as int, v));
                                    }
                                    assert(step_scalars(
                                        old(self).scalars(),
                                        self.scalars(),
                                        *ins,
                                    ));
                                }
                                Ok(())
                            },
                            None => {
                                proof {
                                    assert(self.scalars() =~= old(self).scalars());
                                }
                                Err(VmError::StackEmpty)
                            },
                        }
                    },
                    OpType::Str => {
                        match self.strs.stack.pop() {
                            Some(v) => {
                                let ghost tv = v@;
                                self.strs.regs[*reg as usize] = v;
                                proof {
                                    assert(self.scalars().strs =~= old(
                                        self,
                                    ).scalars().strs.update(*reg as int, tv));
                                    assert(exists|w: Seq<u8>|
                                        self.scalars().strs == old(
                                            self,
                                        ).scalars().strs.update(*reg as int, w)) by {
                                        assert(self.scalars().strs == old(
                                            self,
                                        ).scalars().strs.update(*reg as int, tv));
                                    }
                                    assert(step_scalars(
                                        old(self).scalars(),
                                        self.scalars(),
                                        *ins,
                                    ));
                                }
                                Ok(())
                            },
                            None => {
                                proof {
                                    assert(self.scalars() =~= old(self).scalars());
                                }
                                Err(VmError::StackEmpty)
                            },
                        }
                    },
                    OpType::OfMap(k) => {
                        let popped: Option<usize> = match k {
                            MapKind::IntInt => self.m_ii.stack.pop(),
                            MapKind::IntFloat => self.m_if.stack.pop(),
                            MapKind::IntStr => self.m_is.stack.pop(),
                            MapKind::StrInt => self.m_si.stack.pop(),
                            MapKind::StrFloat => self.m_sf.stack.pop(),
                            MapKind::StrStr => self.m_ss.stack.pop(),
                        };
                        match popped {
                            Some(h) => {
                                self.set_h(*k, *reg, h);
                                proof {
                                    assert(step_scalars(
                                        old(self).scalars(),
                                        self.scalars(),
                                        *ins,
                                    ));
                                }
                                Ok(())
                            },
                            None => {
                                proof {
                                    assert(self.scalars() =~= old(self).scalars());
                                }
                                Err(VmError::StackEmpty)
                            },
                        }
                    },
                }
            },
            Instr::LoadSlot(_, _, _) => {
                proof {
                    assert(self.scalars() =~= old(self).scalars());
                }
                Err(VmError::UnimplementedSlot)
            },
            Instr::StoreSlot(_, _, _) => {
                proof {
                    assert(self.scalars() =~= old(self).scalars());
                }
                Err(VmError::UnimplementedSlot)
            },
            _ => Ok(()),
        }
    }
}

} // verus!

verus! {

impl Interp {
    /// Dispatch the program until a terminal opcode, a runtime error, a
    /// failed write (ending the program successfully: the broken-pipe
    /// policy) or the exhaustion of the step budget, then flush and
    /// release every open sink. The program must be well-formed for these
    /// register counts (the compiler's guarantee; see
    /// [`crate::bytecode::check_program`]). The result and the final
    /// scalar banks are tied to the instruction semantics: some
    /// configuration is reached from the entry by the dispatch relation
    /// ([`step_cfg`]), the banks end as that configuration's banks, and
    /// the run ends there as [`ends_at`] allows — `Done` only at `Halt` or
    /// an entry-frame `Ret`, `BrokenPipe` only at an opcode that writes to
    /// a sink, an error only where its opcode condition holds.
    pub fn run<H: IoHost + FloatHost>(
        &mut self,
        prog: &Program,
        host: &mut H,
        fuel: u64,
    ) -> (r: Result<RunOutcome, VmError>)
        requires
            old(self).wf(),
            prog_wf(*prog, old(self).spec_counts()),
        ensures
            final(self).wf(),
            exists|c: Config|
                reaches(code_view(*prog), init_cfg(*prog, old(self).scalars()), c)
                    && c.banks == final(self).scalars() && #[trigger] ends_at(
                    code_view(*prog),
                    c,
                    r,
                ),
    {
        let r = self.dispatch(prog, host, fuel);
        proof {
            let c = choose|c: Config|
                reaches(code_view(*prog), init_cfg(*prog, old(self).scalars()), c)
                    && c.banks == self.scalars() && #[trigger] ends_at(
                    code_view(*prog),
                    c,
                    r,
                );
            assert(reaches(code_view(*prog), init_cfg(*prog, old(self).scalars()), c)
                && c.banks == self.scalars() && ends_at(code_view(*prog), c, r));
        }
        let ghost pre_close = self.scalars();
        self.write_files.close_all(host);
        proof {
            assert(self.scalars() =~= pre_close);
        }
        r
    }

    /// The dispatch loop itself.
    #[verifier::rlimit(100)]
    fn dispatch<H: IoHost + FloatHost>(
        &mut self,
        prog: &Program,
        host: &mut H,
        fuel: u64,
    ) -> (r: Result<RunOutcome, VmError>)
        requires
            old(self).wf(),
            prog_wf(*prog, old(self).spec_counts()),
        ensures
            final(self).wf(),
            exists|c: Config|
                reaches(code_view(*prog), init_cfg(*prog, old(self).scalars()), c)
                    && c.banks == final(self).scalars() && #[trigger] ends_at(
                    code_view(*prog),
                    c,
                    r,
                ),
    {
        let nfn: usize = prog.funcs.len();
        let mut cur_fn: usize = prog.main;
        let mut cur: usize = 0;
        let mut left: u64 = fuel;
        self.stack.clear();
        let ghost codev = code_view(*prog);
        let ghost c0 = init_cfg(*prog, old(self).scalars());
        let ghost mut cfg: Config = c0;
        let ghost mut n: nat = 0nat;
        proof {
            assert(crate::bytecode::func_wf(
                prog.funcs@[cur_fn as int]@,
                self.spec_counts(),
                nfn as int,
            ));
            assert(frames_of(self.stack@) =~= Seq::<(int, int)>::empty());
            assert(steps_n(codev, c0, cfg, n));
        }
        loop
            invariant
                self.wf(),
                self.spec_counts() == old(self).spec_counts(),
                prog_wf(*prog, self.spec_counts()),
                codev == code_view(*prog),
                c0 == init_cfg(*prog, old(self).scalars()),
                nfn == prog.funcs@.len(),
                cur_fn < nfn,
                cur < prog.funcs@[cur_fn as int]@.len(),
                cfg.f == cur_fn as int,
                cfg.i == cur as int,
                cfg.frames == frames_of(self.stack@),
                cfg.banks == self.scalars(),
                steps_n(codev, c0, cfg, n),
                forall|i: int|
                    0 <= i < self.stack@.len() ==> (#[trigger] self.stack@[i]).0 < nfn
                        && self.stack@[i].1 < prog.funcs@[self.stack@[i].0 as int]@.len(),
            decreases left,
        {
            if left == 0 {
                proof {
                    assert(reaches(codev, c0, cfg)) by {
                        assert(steps_n(codev, c0, cfg, n));
                    }
                    assert(ends_at(codev, cfg, Ok::<RunOutcome, VmError>(
                        RunOutcome::OutOfFuel,
                    )));
                }
                return Ok(RunOutcome::OutOfFuel);
            }
            left = left - 1;
            let code: &Vec<Instr> = &prog.funcs[cur_fn];
            let flen: usize = code.len();
            let ins: &Instr = &code[cur];
            proof {
                assert(crate::bytecode::func_wf(
                    prog.funcs@[cur_fn as int]@,
                    self.spec_counts(),
                    nfn as int,
                ));
                assert(instr_wf(code@[cur as int], self.spec_counts(), nfn as int, flen as int));
                assert(crate::bytecode::is_terminal(code@[flen - 1]));
                assert(codev[cur_fn as int] == prog.funcs@[cur_fn as int]@);
                assert(codev[cfg.f][cfg.i] == *ins);
            }
            match ins {
                Instr::Jmp(l) => {
                    proof {
                        let c2 = Config { f: cfg.f, i: *l as int, frames: cfg.frames, banks: cfg.banks };
                        assert(step_cfg(codev, cfg, c2));
                        assert(steps_n(codev, c0, c2, n + 1)) by {
                            assert(steps_n(codev, c0, cfg, n) && step_cfg(codev, cfg, c2));
                        }
                        cfg = c2;
                        n = n + 1;
                    }
                    cur = *l as usize;
                },
                Instr::JmpIf(cr, l) => {
                    let v = self.ints.regs[*cr as usize];
                    proof {
                        assert(v == cfg.banks.ints[*cr as int]);
                    }
                    if v != 0 {
                        proof {
                            let c2 = Config { f: cfg.f, i: *l as int, frames: cfg.frames, banks: cfg.banks };
                            assert(step_cfg(codev, cfg, c2));
                            assert(steps_n(codev, c0, c2, n + 1)) by {
                                assert(steps_n(codev, c0, cfg, n) && step_cfg(codev, cfg, c2));
                            }
                            cfg = c2;
                            n = n + 1;
                        }
                        cur = *l as usize;
                    } else {
                        proof {
                            assert(cur + 1 < flen) by {
                                if cur == flen - 1 {
                                    assert(crate::bytecode::is_terminal(code@[cur as int]));
                                }
                            }
                            let c2 = Config { f: cfg.f, i: cfg.i + 1, frames: cfg.frames, banks: cfg.banks };
                            assert(step_cfg(codev, cfg, c2));
                            assert(steps_n(codev, c0, c2, n + 1)) by {
                                assert(steps_n(codev, c0, cfg, n) && step_cfg(codev, cfg, c2));
                            }
                            cfg = c2;
                            n = n + 1;
                        }
                        cur = cur + 1;
                    }
                },
                Instr::Call(f) => {
                    proof {
                        assert(cur + 1 < flen) by {
                            if cur == flen - 1 {
                                assert(crate::bytecode::is_terminal(code@[cur as int]));
                            }
                        }
                        assert(crate::bytecode::func_wf(
                            prog.funcs@[*f as int]@,
                            self.spec_counts(),
                            nfn as int,
                        ));
                    }
                    let ghost pre_stack = self.stack@;
                    self.stack.push((cur_fn, cur + 1));
                    proof {
                        assert(frames_of(self.stack@) =~= frames_of(pre_stack).push(
                            (cfg.f, cfg.i + 1),
                        )) by {
                            let va = frames_of(self.stack@);
                            let vb = frames_of(pre_stack).push((cfg.f, cfg.i + 1));
                            assert forall|k: int| 0 <= k < va.len() implies #[trigger] va[k]
                                == vb[k] by {
                                assert(va[k] == (
                                    self.stack@[k].0 as int,
                                    self.stack@[k].1 as int,
                                ));
                                if k < pre_stack.len() {
                                    assert(frames_of(pre_stack)[k] == (
                                        pre_stack[k].0 as int,
                                        pre_stack[k].1 as int,
                                    ));
                                }
                            }
                        }
                        let c2 = Config {
                            f: *f as int,
                            i: 0,
                            frames: cfg.frames.push((cfg.f, cfg.i + 1)),
                            banks: cfg.banks,
                        };
                        assert(step_cfg(codev, cfg, c2));
                        assert(steps_n(codev, c0, c2, n + 1)) by {
                            assert(steps_n(codev, c0, cfg, n) && step_cfg(codev, cfg, c2));
                        }
                        cfg = c2;
                        n = n + 1;
                    }
                    cur_fn = *f as usize;
                    cur = 0;
                },
                Instr::Ret => {
                    let ghost pre_stack = self.stack@;
                    match self.stack.pop() {
                        Some(frame) => {
                            proof {
                                assert(frames_of(pre_stack).len() == pre_stack.len());
                                assert(frames_of(pre_stack).last() == (
                                    frame.0 as int,
                                    frame.1 as int,
                                ));
                                assert(frames_of(self.stack@) =~= frames_of(
                                    pre_stack,
                                ).drop_last()) by {
                                    let va = frames_of(self.stack@);
                                    let vb = frames_of(pre_stack).drop_last();
                                    assert forall|k: int| 0 <= k < va.len() implies
                                        #[trigger] va[k] == vb[k] by {
                                        assert(va[k] == (
                                            self.stack@[k].0 as int,
                                            self.stack@[k].1 as int,
                                        ));
                                        assert(vb[k] == (
                                            pre_stack[k].0 as int,
                                            pre_stack[k].1 as int,
                                        ));
                                    }
                                }
                                let c2 = Config {
                                    f: frame.0 as int,
                                    i: frame.1 as int,
                                    frames: cfg.frames.drop_last(),
                                    banks: cfg.banks,
                                };
                                assert(step_cfg(codev, cfg, c2));
                                assert(steps_n(codev, c0, c2, n + 1)) by {
                                    assert(steps_n(codev, c0, cfg, n) && step_cfg(
                                        codev,
                                        cfg,
                                        c2,
                                    ));
                                }
                                cfg = c2;
                                n = n + 1;
                            }
                            cur_fn = frame.0;
                            cur = frame.1;
                        },
                        None => {
                            proof {
                                assert(cfg.frames.len() == 0);
                                assert(reaches(codev, c0, cfg)) by {
                                    assert(steps_n(codev, c0, cfg, n));
                                }
                                assert(ends_at(codev, cfg, Ok::<RunOutcome, VmError>(
                                    RunOutcome::Done,
                                )));
                            }
                            return Ok(RunOutcome::Done);
                        },
                    }
                },
                Instr::Halt => {
                    proof {
                        assert(reaches(codev, c0, cfg)) by {
                            assert(steps_n(codev, c0, cfg, n));
                        }
                        assert(ends_at(codev, cfg, Ok::<RunOutcome, VmError>(
                            RunOutcome::Done,
                        )));
                    }
                    return Ok(RunOutcome::Done);
                },
                _ => {
                    let flow: Flow = match ins {
                        Instr::PrintStdout(..) | Instr::Print(..) | Instr::Printf { .. }
                            | Instr::Sprintf { .. } | Instr::Close(..) | Instr::ReadErr(..)
                            | Instr::NextLine(..) | Instr::ReadErrStdin(..)
                            | Instr::NextLineStdin(..) | Instr::NextLineStdinFused
                            | Instr::NextFile => {
                            match self.exec_io(ins, host, Ghost(nfn as int), Ghost(flen as int)) {
                                Ok(f2) => f2,
                                Err(e) => {
                                    proof {
                                        assert(reaches(codev, c0, cfg)) by {
                                            assert(steps_n(codev, c0, cfg, n));
                                        }
                                        assert(ends_at(codev, cfg, Err::<RunOutcome, VmError>(e)));
                                    }
                                    return Err(e);
                                },
                            }
                        },
                        Instr::AllocMap(..) | Instr::Lookup(..) | Instr::Contains(..)
                            | Instr::Delete(..) | Instr::LenMap(..) | Instr::StoreMap(..)
                            | Instr::MovMap(..) | Instr::IterBegin(..)
                            | Instr::IterHasNextInt(..) | Instr::IterHasNextStr(..)
                            | Instr::IterGetNextInt(..) | Instr::IterGetNextStr(..) => {
                            match self.exec_map(ins, Ghost(nfn as int), Ghost(flen as int)) {
                                Ok(_) => Flow::Next,
                                Err(e) => {
                                    proof {
                                        assert(reaches(codev, c0, cfg)) by {
                                            assert(steps_n(codev, c0, cfg, n));
                                        }
                                        assert(ends_at(codev, cfg, Err::<RunOutcome, VmError>(e)));
                                    }
                                    return Err(e);
                                },
                            }
                        },
                        Instr::AddFloat(..) | Instr::MinusFloat(..) | Instr::MulFloat(..)
                            | Instr::Div(..) | Instr::ModFloat(..) | Instr::Pow(..)
                            | Instr::NegFloat(..) | Instr::Float1(..) | Instr::Float2(..)
                            | Instr::CmpFloat(..) | Instr::FloatToStr(..)
                            | Instr::StrToFloat(..) | Instr::FloatToInt(..)
                            | Instr::IntToFloat(..) | Instr::Rand(..) | Instr::Srand(..)
                            | Instr::ReseedRng(..) => {
                            self.exec_float(ins, host, Ghost(nfn as int), Ghost(flen as int));
                            Flow::Next
                        },
                        Instr::GetColumn(..) | Instr::SetColumn(..) | Instr::JoinCSV(..)
                            | Instr::JoinTSV(..) | Instr::JoinColumns(..) | Instr::Match(..)
                            | Instr::IsMatch(..) | Instr::Sub(..) | Instr::GSub(..)
                            | Instr::SplitInt(..) | Instr::SplitStr(..) => {
                            match self.exec_line(ins, Ghost(nfn as int), Ghost(flen as int)) {
                                Ok(_) => Flow::Next,
                                Err(e) => {
                                    proof {
                                        assert(reaches(codev, c0, cfg)) by {
                                            assert(steps_n(codev, c0, cfg, n));
                                        }
                                        assert(ends_at(codev, cfg, Err::<RunOutcome, VmError>(e)));
                                    }
                                    return Err(e);
                                },
                            }
                        },
                        Instr::LoadVarStr(..) | Instr::StoreVarStr(..) | Instr::LoadVarInt(..)
                            | Instr::StoreVarInt(..) | Instr::LoadVarIntMap(..)
                            | Instr::StoreVarIntMap(..) | Instr::Push(..) | Instr::Pop(..)
                            | Instr::LoadSlot(..) | Instr::StoreSlot(..) => {
                            match self.exec_vars_stack(ins, Ghost(nfn as int), Ghost(
                                flen as int,
                            )) {
                                Ok(_) => Flow::Next,
                                Err(e) => {
                                    proof {
                                        assert(reaches(codev, c0, cfg)) by {
                                            assert(steps_n(codev, c0, cfg, n));
                                        }
                                        assert(ends_at(codev, cfg, Err::<RunOutcome, VmError>(e)));
                                    }
                                    return Err(e);
                                },
                            }
                        },
                        _ => {
                            self.exec_basic(ins, Ghost(nfn as int), Ghost(flen as int));
                            Flow::Next
                        },
                    };
                    match flow {
                        Flow::Stop => {
                            proof {
                                assert(reaches(codev, c0, cfg)) by {
                                    assert(steps_n(codev, c0, cfg, n));
                                }
                                assert(ends_at(codev, cfg, Ok::<RunOutcome, VmError>(
                                    RunOutcome::BrokenPipe,
                                )));
                            }
                            return Ok(RunOutcome::BrokenPipe);
                        },
                        Flow::Next => {
                            proof {
                                assert(cur + 1 < flen) by {
                                    if cur == flen - 1 {
                                        assert(crate::bytecode::is_terminal(code@[cur as int]));
                                    }
                                }
                                assert(step_scalars(cfg.banks, self.scalars(), *ins));
                                assert(ok_cond(*ins, cfg.banks));
                                let c2 = Config {
                                    f: cfg.f,
                                    i: cfg.i + 1,
                                    frames: cfg.frames,
                                    banks: self.scalars(),
                                };
                                assert(step_cfg(codev, cfg, c2));
                                assert(steps_n(codev, c0, c2, n + 1)) by {
                                    assert(steps_n(codev, c0, cfg, n) && step_cfg(
                                        codev,
                                        cfg,
                                        c2,
                                    ));
                                }
                                cfg = c2;
                                n = n + 1;
                            }
                            cur = cur + 1;
                        },
                    }
                },
            }
        }
    }
}

} // verus!
