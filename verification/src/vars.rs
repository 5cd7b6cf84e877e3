//! Named built-in variables with typed accessors.
//!
//! A fixed enumeration of typed cells: string-valued separators and the
//! current filename, integer-valued record counters and match registers,
//! and the argument map. Loading or storing through an accessor of the
//! wrong value type fails with a clear error; the accessors are total for
//! the expected type.

use vstd::prelude::*;
use crate::error::VmError;
use crate::str_impl::Str;

verus! {

/// The built-in variables.
#[derive(Clone, Copy, PartialEq, Eq, Structural, Debug)]
pub enum Variable {
    /// Input field separator.
    FS,
    /// Output field separator.
    OFS,
    /// Record separator.
    RS,
    /// Number of fields in the current record (lazy).
    NF,
    /// Records read in total.
    NR,
    /// Records read in the current file.
    FNR,
    /// Name of the current input file.
    FILENAME,
    /// 1-based start of the last `Match` (0 when it failed).
    RSTART,
    /// Length of the last `Match` (-1 when it failed).
    RLENGTH,
    /// Number of command-line arguments.
    ARGC,
    /// The command-line arguments, an integer-keyed map of strings.
    ARGV,
}

/// The values of the built-in variables. The argument map lives in the
/// interpreter's map storage; `argv` is its handle there.
pub struct Variables {
    pub fs: Str,
    pub ofs: Str,
    pub rs: Str,
    pub nf: i64,
    pub nr: i64,
    pub fnr: i64,
    pub filename: Str,
    pub rstart: i64,
    pub rlength: i64,
    pub argc: i64,
    pub argv: usize,
}

impl Variables {
    /// The defaults: blank field separators, newline record separator,
    /// empty filename, zero counters, and the given argument-map handle.
    pub fn new(argv: usize) -> (r: Variables)
        ensures
            r.fs@ == seq![32u8],
            r.ofs@ == seq![32u8],
            r.rs@ == seq![10u8],
            r.nf == 0,
            r.nr == 0,
            r.fnr == 0,
            r.filename@ == Seq::<u8>::empty(),
            r.rstart == 0,
            r.rlength == -1,
            r.argc == 0,
            r.argv == argv,
    {
        let mut fsv: Vec<u8> = Vec::new();
        fsv.push(32);
        let mut ofsv: Vec<u8> = Vec::new();
        ofsv.push(32);
        let mut rsv: Vec<u8> = Vec::new();
        rsv.push(10);
        let r = Variables {
            fs: Str::from_vec(fsv),
            ofs: Str::from_vec(ofsv),
            rs: Str::from_vec(rsv),
            nf: 0,
            nr: 0,
            fnr: 0,
            filename: Str::empty(),
            rstart: 0,
            rlength: -1,
            argc: 0,
            argv,
        };
        assert(r.fs@ =~= seq![32u8]);
        assert(r.ofs@ =~= seq![32u8]);
        assert(r.rs@ =~= seq![10u8]);
        r
    }

    /// Whether `v` holds a string.
    pub open spec fn is_str_var(v: Variable) -> bool {
        v == Variable::FS || v == Variable::OFS || v == Variable::RS || v
            == Variable::FILENAME
    }

    /// Whether `v` holds an integer.
    pub open spec fn is_int_var(v: Variable) -> bool {
        v == Variable::NF || v == Variable::NR || v == Variable::FNR || v
            == Variable::RSTART || v == Variable::RLENGTH || v == Variable::ARGC
    }

    /// The string value of `v`.
    pub open spec fn spec_str(&self, v: Variable) -> Seq<u8> {
        match v {
            Variable::FS => self.fs@,
            Variable::OFS => self.ofs@,
            Variable::RS => self.rs@,
            Variable::FILENAME => self.filename@,
            _ => Seq::empty(),
        }
    }

    /// The integer value of `v`.
    pub open spec fn spec_int(&self, v: Variable) -> i64 {
        match v {
            Variable::NF => self.nf,
            Variable::NR => self.nr,
            Variable::FNR => self.fnr,
            Variable::RSTART => self.rstart,
            Variable::RLENGTH => self.rlength,
            Variable::ARGC => self.argc,
            _ => 0,
        }
    }

    /// Load a string variable; an error exactly on the non-string ones.
    pub fn load_str(&self, v: Variable) -> (r: Result<Str, VmError>)
        ensures
            match r {
                Ok(s) => Self::is_str_var(v) && s@ == self.spec_str(v),
                Err(e) => !Self::is_str_var(v) && e == VmError::WrongVarType,
            },
    {
        match v {
            Variable::FS => Ok(self.fs.dup()),
            Variable::OFS => Ok(self.ofs.dup()),
            Variable::RS => Ok(self.rs.dup()),
            Variable::FILENAME => Ok(self.filename.dup()),
            _ => Err(VmError::WrongVarType),
        }
    }

    /// Load an integer variable; an error exactly on the non-integer ones.
    pub fn load_int(&self, v: Variable) -> (r: Result<i64, VmError>)
        ensures
            match r {
                Ok(i) => Self::is_int_var(v) && i == self.spec_int(v),
                Err(e) => !Self::is_int_var(v) && e == VmError::WrongVarType,
            },
    {
        match v {
            Variable::NF => Ok(self.nf),
            Variable::NR => Ok(self.nr),
            Variable::FNR => Ok(self.fnr),
            Variable::RSTART => Ok(self.rstart),
            Variable::RLENGTH => Ok(self.rlength),
            Variable::ARGC => Ok(self.argc),
            _ => Err(VmError::WrongVarType),
        }
    }

    /// Load the map variable's handle; an error on everything but the
    /// argument map.
    pub fn load_intmap(&self, v: Variable) -> (r: Result<usize, VmError>)
        ensures
            match r {
                Ok(h) => v == Variable::ARGV && h == self.argv,
                Err(e) => v != Variable::ARGV && e == VmError::WrongVarType,
            },
    {
        match v {
            Variable::ARGV => Ok(self.argv),
            _ => Err(VmError::WrongVarType),
        }
    }

    /// Store a string variable; an error exactly on the non-string ones.
    pub fn store_str(&mut self, v: Variable, s: Str) -> (r: Result<(), VmError>)
        ensures
            match r {
                Ok(_) => Self::is_str_var(v) && final(self).spec_str(v) == s@ && (v
                    != Variable::FS ==> final(self).fs == old(self).fs) && (v
                    != Variable::OFS ==> final(self).ofs == old(self).ofs) && (v
                    != Variable::RS ==> final(self).rs == old(self).rs) && (v
                    != Variable::FILENAME ==> final(self).filename == old(self).filename)
                    && final(self).nf == old(self).nf && final(self).nr == old(self).nr
                    && final(self).fnr == old(self).fnr && final(self).rstart == old(
                    self,
                ).rstart && final(self).rlength == old(self).rlength && final(self).argc
                    == old(self).argc && final(self).argv == old(self).argv,
                Err(e) => !Self::is_str_var(v) && e == VmError::WrongVarType && *final(self)
                    == *old(self),
            },
    {
        match v {
            Variable::FS => {
                self.fs = s;
                Ok(())
            },
            Variable::OFS => {
                self.ofs = s;
                Ok(())
            },
            Variable::RS => {
                self.rs = s;
                Ok(())
            },
            Variable::FILENAME => {
                self.filename = s;
                Ok(())
            },
            _ => Err(VmError::WrongVarType),
        }
    }

    /// Store an integer variable; an error exactly on the non-integer
    /// ones.
    pub fn store_int(&mut self, v: Variable, i: i64) -> (r: Result<(), VmError>)
        ensures
            match r {
                Ok(_) => Self::is_int_var(v) && final(self).spec_int(v) == i && (v
                    != Variable::NF ==> final(self).nf == old(self).nf) && (v
                    != Variable::NR ==> final(self).nr == old(self).nr) && (v
                    != Variable::FNR ==> final(self).fnr == old(self).fnr) && (v
                    != Variable::RSTART ==> final(self).rstart == old(self).rstart) && (v
                    != Variable::RLENGTH ==> final(self).rlength == old(self).rlength) && (v
                    != Variable::ARGC ==> final(self).argc == old(self).argc) && final(self).fs == old(self).fs && final(self).ofs == old(self).ofs && final(self).rs
                    == old(self).rs && final(self).filename == old(self).filename && final(self).argv == old(self).argv,
                Err(e) => !Self::is_int_var(v) && e == VmError::WrongVarType && *final(self)
                    == *old(self),
            },
    {
        match v {
            Variable::NF => {
                self.nf = i;
                Ok(())
            },
            Variable::NR => {
                self.nr = i;
                Ok(())
            },
            Variable::FNR => {
                self.fnr = i;
                Ok(())
            },
            Variable::RSTART => {
                self.rstart = i;
                Ok(())
            },
            Variable::RLENGTH => {
                self.rlength = i;
                Ok(())
            },
            Variable::ARGC => {
                self.argc = i;
                Ok(())
            },
            _ => Err(VmError::WrongVarType),
        }
    }

    /// Store the map variable's handle; an error on everything but the
    /// argument map.
    pub fn store_intmap(&mut self, v: Variable, h: usize) -> (r: Result<(), VmError>)
        ensures
            match r {
                Ok(_) => v == Variable::ARGV && final(self).argv == h && final(self).fs
                    == old(self).fs && final(self).ofs == old(self).ofs && final(self).rs
                    == old(self).rs && final(self).filename == old(self).filename && final(self).nf == old(self).nf && final(self).nr == old(self).nr && final(self).fnr
                    == old(self).fnr && final(self).rstart == old(self).rstart && final(self).rlength == old(self).rlength && final(self).argc == old(self).argc,
                Err(e) => v != Variable::ARGV && e == VmError::WrongVarType && *final(self)
                    == *old(self),
            },
    {
        match v {
            Variable::ARGV => {
                self.argv = h;
                Ok(())
            },
            _ => Err(VmError::WrongVarType),
        }
    }
}

} // verus!
