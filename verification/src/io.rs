//! The file layer: buffered record reading and the keyed table of output
//! sinks.
//!
//! The read side splits incoming chunks into records at the record
//! separator: the first byte of `RS` (newline by default). A source that
//! ends without a trailing separator yields its remainder as a final
//! record. `read_err` reports the status of the most recent read: 1 when
//! it yielded a record, 0 at clean end of input, -1 after a failure (a
//! missing file or a read error), so a program can inspect and react; it
//! is 1 before any read. The write side keys sinks by path; the
//! first write opens the sink with the requested mode, `close` flushes and
//! removes it. A failed write is reported to the dispatch loop, which ends
//! the program successfully (the broken-pipe policy).

use vstd::prelude::*;
use crate::host::{IoHost, ReadOutcome};
use crate::line::byte_find;
use crate::str_impl::Str;

verus! {

/// One buffered input source.
pub struct Reader {
    handle: u64,
    opened: bool,
    buf: Vec<u8>,
    eof: bool,
    failed: bool,
    status: i64,
}

impl Reader {
    /// The bytes read but not yet returned.
    pub closed spec fn buffered(&self) -> Seq<u8> {
        self.buf@
    }

    /// Whether the source reported a clean end.
    pub closed spec fn at_eof(&self) -> bool {
        self.eof
    }

    /// Whether the source failed to open or to read.
    pub closed spec fn has_failed(&self) -> bool {
        self.failed
    }

    /// The status of the most recent read: 1 when it yielded a record, 0
    /// at clean end of input, -1 after a failure; 1 before any read.
    pub closed spec fn read_status(&self) -> int {
        self.status as int
    }

    /// A reader over an opened source.
    pub fn new(handle: u64) -> (r: Reader)
        ensures
            r.buffered() == Seq::<u8>::empty(),
            !r.at_eof(),
            !r.has_failed(),
    {
        Reader { handle, opened: true, buf: Vec::new(), eof: false, failed: false, status: 1 }
    }

    /// A reader whose source could not be opened.
    pub fn failed() -> (r: Reader)
        ensures
            r.buffered() == Seq::<u8>::empty(),
            r.at_eof(),
            r.has_failed(),
    {
        Reader {
            handle: 0,
            opened: false,
            buf: Vec::new(),
            eof: true,
            failed: true,
            status: -1,
        }
    }

    /// The status of the most recent read: 1 when it yielded a record, 0
    /// at clean end of input, -1 after a failure; 1 before any read. This
    /// is the convention the interpreter exposes to programs: a fatal
    /// error (a missing file, a read failure) is the nonzero negative
    /// report, a clean end of input is 0, and while records remain each
    /// read reports 1 for the record it produced.
    pub fn read_err(&self) -> (r: i64)
        ensures
            r == self.read_status(),
    {
        self.status
    }

    /// The next record: the buffered and newly read bytes up to but not
    /// including the first `sep`, pulling chunks from the host as needed.
    /// At the end of the source the remainder (if any) is the last
    /// record. `None` when the source is exhausted or has failed. At most
    /// `reads` chunks are pulled in one call; a source that yields more
    /// without a separator is treated as failed (callers pass the largest
    /// budget, which no real source exhausts).
    pub fn next_record<H: IoHost>(&mut self, sep: u8, host: &mut H, reads: u64) -> (r:
        Option<Str>)
        ensures
            final(self).has_failed() ==> final(self).at_eof(),
            !old(self).has_failed() && byte_find(old(self).buffered(), sep, 0) < old(
                self,
            ).buffered().len() ==> (r matches Some(line) && line@ == old(
                self,
            ).buffered().subrange(0, byte_find(old(self).buffered(), sep, 0))),
            match r {
                Some(line) => final(self).read_status() == 1 && byte_find(line@, sep, 0)
                    == line@.len()
                    && (exists|app: Seq<u8>|
                        old(self).buffered() + app == line@ + seq![sep]
                            + final(self).buffered()
                        || (old(self).buffered() + app == line@
                            && final(self).buffered() == Seq::<u8>::empty()
                            && final(self).at_eof())),
                None => final(self).at_eof() && final(self).buffered().len() == 0
                    && (final(self).has_failed() || old(self).buffered().len() == 0)
                    && final(self).read_status() == (if final(self).has_failed() {
                    -1int
                } else {
                    0int
                }),
            },
    {
        if self.failed {
            self.eof = true;
            self.status = -1;
            let mut taken: Vec<u8> = Vec::new();
            std::mem::swap(&mut taken, &mut self.buf);
            return None;
        }
        let ghost buf0 = self.buf@;
        let ghost mut app: Seq<u8> = Seq::empty();
        let mut searched: usize = 0;
        let mut left: u64 = reads;
        loop
            invariant
                searched <= self.buf@.len(),
                self.buf@ == buf0 + app,
                !self.failed,
                old(self).buffered() == buf0,
                self.buffered() == buf0 + app,
                forall|k: int| 0 <= k < searched ==> self.buf@[k] != sep,
            decreases left,
        {
            let n: usize = self.buf.len();
            let mut j: usize = searched;
            while j < n && self.buf[j] != sep
                invariant
                    searched <= j <= n == self.buf@.len(),
                    forall|k: int| 0 <= k < j ==> self.buf@[k] != sep,
                decreases n - j,
            {
                j = j + 1;
            }
            if j < n {
                let line = copy_vec_range(&self.buf, 0, j);
                let rest = copy_vec_range(&self.buf, j + 1, n);
                proof {
                    assert(forall|k: int| 0 <= k < line@.len() ==> line@[k] != sep);
                    crate::line::lemma_byte_find_exact(line@, sep, 0, line@.len() as int);
                    assert((buf0 + app) =~= line@ + seq![sep] + rest@);
                    if byte_find(buf0, sep, 0) < buf0.len() {
                        let q = byte_find(buf0, sep, 0);
                        crate::line::lemma_byte_find_props_pub(buf0, sep);
                        assert(self.buf@[q] == sep);
                        assert(q >= j as int) by {
                            if q < j as int {
                                assert(self.buf@[q] != sep);
                            }
                        }
                        assert(q <= j as int) by {
                            if q > j as int {
                                assert(j < buf0.len());
                                assert(buf0[j as int] == sep);
                                crate::line::lemma_byte_find_le(buf0, sep, j as int);
                            }
                        }
                        assert(line@ =~= buf0.subrange(0, q));
                    }
                }
                self.buf = rest;
                self.status = 1;
                proof {
                    assert(old(self).buffered() + app == line@ + seq![sep] + self.buffered());
                }
                return Some(Str::from_vec(line));
            }
            if self.eof {
                if n == 0 {
                    self.status = 0;
                    proof {
                        assert(buf0.len() == 0) by {
                            assert((buf0 + app).len() == 0);
                        }
                    }
                    return None;
                }
                proof {
                    if byte_find(buf0, sep, 0) < buf0.len() {
                        let q = byte_find(buf0, sep, 0);
                        crate::line::lemma_byte_find_props_pub(buf0, sep);
                        assert(self.buf@[q] != sep);
                    }
                }
                self.status = 1;
                let mut taken: Vec<u8> = Vec::new();
                std::mem::swap(&mut taken, &mut self.buf);
                proof {
                    assert(forall|k: int| 0 <= k < taken@.len() ==> taken@[k] != sep);
                    crate::line::lemma_byte_find_exact(taken@, sep, 0, taken@.len() as int);
                    assert((buf0 + app) =~= taken@);
                    assert(old(self).buffered() + app == taken@);
                }
                return Some(Str::from_vec(taken));
            }
            if left == 0 {
                proof {
                    if byte_find(buf0, sep, 0) < buf0.len() {
                        let q = byte_find(buf0, sep, 0);
                        crate::line::lemma_byte_find_props_pub(buf0, sep);
                        assert(self.buf@[q] != sep);
                    }
                }
                self.failed = true;
                self.eof = true;
                self.status = -1;
                let mut taken: Vec<u8> = Vec::new();
                std::mem::swap(&mut taken, &mut self.buf);
                return None;
            }
            left = left - 1;
            match host.read_chunk(self.handle) {
                ReadOutcome::Data(d) => {
                    append_vec(&mut self.buf, &d);
                    proof {
                        app = app + d@;
                        assert(self.buf@ =~= buf0 + app);
                    }
                    searched = j;
                },
                ReadOutcome::End => {
                    self.eof = true;
                    searched = j;
                },
                ReadOutcome::Fail => {
                    proof {
                        if byte_find(buf0, sep, 0) < buf0.len() {
                            let q = byte_find(buf0, sep, 0);
                            crate::line::lemma_byte_find_props_pub(buf0, sep);
                            assert(self.buf@[q] != sep);
                        }
                    }
                    self.failed = true;
                    self.eof = true;
                    self.status = -1;
                    let mut taken: Vec<u8> = Vec::new();
                    std::mem::swap(&mut taken, &mut self.buf);
                    return None;
                },
            }
        }
    }
}

/// The read side: the primary input (the queued filenames, or the
/// standard input when none were given) and a keyed table of additional
/// named sources.
pub struct FileRead {
    main: Reader,
    main_open: bool,
    started: bool,
    queue: Vec<Str>,
    qpos: usize,
    filename: Str,
    last_main: i64,
    named: Vec<(Vec<u8>, Reader)>,
}

impl FileRead {
    /// The name of the current primary source (empty for the standard
    /// input).
    pub closed spec fn filename_view(&self) -> Seq<u8> {
        self.filename@
    }

    /// The status of the most recent primary read: 1 when it yielded a
    /// record, 0 at clean end of all input, -1 after a failure; 1 before
    /// any read.
    pub closed spec fn main_status(&self) -> int {
        self.last_main as int
    }

    /// Sources still queued ahead of the current one.
    spec fn pending(&self) -> int {
        (if self.qpos <= self.queue@.len() {
            self.queue@.len() - self.qpos
        } else {
            0int
        }) + (if !self.started && self.queue@.len() == 0 {
            1int
        } else {
            0int
        })
    }

    /// A read layer over the queued input files; an empty queue reads the
    /// standard input.
    pub fn new(queue: Vec<Str>) -> (r: FileRead)
        ensures
            r.filename_view() == Seq::<u8>::empty(),
    {
        FileRead {
            main: Reader::failed(),
            main_open: false,
            started: false,
            queue,
            qpos: 0,
            filename: Str::empty(),
            last_main: 1,
            named: Vec::new(),
        }
    }

    /// The next record of the primary input, advancing through the queued
    /// files; the flag says whether the source file changed, so that the
    /// filename and per-file record count must be reset. `None` when all
    /// input is exhausted or the current source failed.
    pub fn next_record_main<H: IoHost>(&mut self, sep: u8, host: &mut H) -> (r: (
        Option<Str>,
        bool,
    ))
        ensures
            match r.0 {
                Some(line) => byte_find(line@, sep, 0) == line@.len()
                    && final(self).main_status() == 1,
                None => final(self).main_status() <= 0,
            },
            !r.1 ==> final(self).filename_view() == old(self).filename_view(),
    {
        let mut changed: bool = false;
        loop
            invariant
                !changed ==> self.filename == old(self).filename,
            decreases self.pending(), (if self.main_open {
                1int
            } else {
                0int
            }),
        {
            if !self.main_open {
                let qn: usize = self.queue.len();
                if !self.started && qn == 0 {
                    self.started = true;
                    let path: Vec<u8> = Vec::new();
                    match host.open_read(&path) {
                        Some(h) => {
                            self.main = Reader::new(h);
                        },
                        None => {
                            self.main = Reader::failed();
                        },
                    }
                    self.main_open = true;
                    self.filename = Str::empty();
                    changed = true;
                } else if self.qpos < qn {
                    let name = self.queue[self.qpos].dup();
                    self.qpos = self.qpos + 1;
                    self.started = true;
                    match host.open_read(name.bytes()) {
                        Some(h) => {
                            self.main = Reader::new(h);
                        },
                        None => {
                            self.main = Reader::failed();
                        },
                    }
                    self.main_open = true;
                    self.filename = name;
                    changed = true;
                } else {
                    self.last_main = 0;
                    return (None, changed);
                }
            }
            match self.main.next_record(sep, host, 0xffff_ffff_ffff_ffff_u64) {
                Some(line) => {
                    self.last_main = 1;
                    return (Some(line), changed);
                },
                None => {
                    if self.main.read_err() < 0 {
                        self.last_main = -1;
                        return (None, changed);
                    }
                    self.main_open = false;
                },
            }
        }
    }

    /// The status of the most recent primary read: 1 when it yielded a
    /// record, 0 at clean end of all input, -1 after a failure; 1 before
    /// any read.
    pub fn read_err_main(&self) -> (r: i64)
        ensures
            -1 <= r <= 1,
            r == if self.main_status() > 1 {
                1int
            } else if self.main_status() < -1 {
                -1int
            } else {
                self.main_status()
            },
    {
        if self.last_main < -1 {
            -1
        } else if self.last_main > 1 {
            1
        } else {
            self.last_main
        }
    }

    /// The name of the current primary source, for the filename variable.
    pub fn current_filename(&self) -> (r: Str)
        ensures
            r@ == self.filename_view(),
    {
        self.filename.dup()
    }

    /// Close the current primary source and advance to the next queued
    /// filename; the caller resets the filename and per-file record count.
    pub fn next_file(&mut self) {
        self.main_open = false;
        self.started = true;
    }

    /// The position of a named source, opening it on first use (a source
    /// that cannot be opened is recorded as failed).
    fn named_idx<H: IoHost>(&mut self, path: &Str, host: &mut H) -> (r: usize)
        ensures
            r < final(self).named@.len(),
    {
        let n: usize = self.named.len();
        let mut i: usize = 0;
        while i < n
            invariant
                i <= n == self.named@.len(),
            decreases n - i,
        {
            if vec_eq_str_bytes(&self.named[i].0, path) {
                return i;
            }
            i = i + 1;
        }
        let key = copy_vec_range(path.bytes(), 0, path.len());
        let rd = match host.open_read(path.bytes()) {
            Some(h) => Reader::new(h),
            None => Reader::failed(),
        };
        self.named.push((key, rd));
        n
    }

    /// The next record of the named source; `None` at its end or after a
    /// failure.
    pub fn next_record_named<H: IoHost>(&mut self, path: &Str, sep: u8, host: &mut H) -> (r:
        Option<Str>)
        ensures
            match r {
                Some(line) => byte_find(line@, sep, 0) == line@.len(),
                None => true,
            },
    {
        let i = self.named_idx(path, host);
        let n: usize = self.named.len();
        assert(i < n);
        let mut taken: (Vec<u8>, Reader) = (Vec::new(), Reader::failed());
        std::mem::swap(&mut taken, &mut self.named[i]);
        let out = taken.1.next_record(sep, host, 0xffff_ffff_ffff_ffff_u64);
        std::mem::swap(&mut taken, &mut self.named[i]);
        out
    }

    /// The status of the most recent read of the named source: 1 when it
    /// yielded a record, 0 at its clean end, -1 after a failure (a missing
    /// file included); 1 before any read.
    pub fn read_err_named<H: IoHost>(&mut self, path: &Str, host: &mut H) -> (r: i64)
        ensures
            -1 <= r <= 1,
    {
        let i = self.named_idx(path, host);
        let e = self.named[i].1.read_err();
        if e < -1 {
            -1
        } else if e > 1 {
            1
        } else {
            e
        }
    }

    /// Release the named source, if open.
    pub fn close_named<H: IoHost>(&mut self, path: &Str, host: &mut H) {
        let n: usize = self.named.len();
        let mut i: usize = 0;
        while i < n
            invariant
                i <= n == self.named@.len(),
            decreases n - i,
        {
            if vec_eq_str_bytes(&self.named[i].0, path) {
                let entry = self.named.remove(i);
                let mut rd = entry.1;
                rd.release(host);
                return ;
            }
            i = i + 1;
        }
    }
}

impl Reader {
    /// Hand the source back to the host.
    pub fn release<H: IoHost>(&mut self, host: &mut H) {
        if self.opened {
            host.close_read(self.handle);
            self.opened = false;
            self.eof = true;
        }
    }
}

/// Byte equality between a vector and a string.
fn vec_eq_str_bytes(v: &Vec<u8>, s: &Str) -> (r: bool)
    ensures
        r <==> v@ == s@,
{
    let sv = s.bytes();
    if v.len() != sv.len() {
        assert(v@ != s@) by {
            assert(v@.len() != s@.len());
        }
        return false;
    }
    let n: usize = v.len();
    let mut i: usize = 0;
    while i < n
        invariant
            i <= n == v@.len() == sv@.len(),
            sv@ == s@,
            forall|k: int| 0 <= k < i ==> v@[k] == s@[k],
        decreases n - i,
    {
        if v[i] != sv[i] {
            assert(v@ != s@) by {
                assert(v@[i as int] != s@[i as int]);
            }
            return false;
        }
        i = i + 1;
    }
    assert(v@ =~= s@);
    true
}

/// The write side: a keyed table of open output sinks. The key is the
/// destination path; the first write opens the sink with the requested
/// append or truncate mode.
pub struct FileWrite {
    sinks: Vec<(Vec<u8>, u64)>,
}

impl FileWrite {
    /// The paths of the open sinks, in opening order.
    pub closed spec fn sink_paths(&self) -> Seq<Seq<u8>> {
        self.sinks@.map_values(|e: (Vec<u8>, u64)| e.0@)
    }

    /// A write layer with no open sinks.
    pub fn new() -> (r: FileWrite)
        ensures
            r.sink_paths() == Seq::<Seq<u8>>::empty(),
    {
        let r = FileWrite { sinks: Vec::new() };
        assert(r.sink_paths() =~= Seq::<Seq<u8>>::empty());
        r
    }

    /// Write to the standard output; `false` on a write error.
    pub fn write_stdout<H: IoHost>(&mut self, host: &mut H, text: &Str) -> (r: bool)
        ensures
            *final(self) == *old(self),
    {
        host.write_stdout(text.bytes())
    }

    /// The position of the sink keyed by `path`, if open.
    fn find_sink(&self, path: &Str) -> (r: Option<usize>)
        ensures
            match r {
                Some(i) => i < self.sinks@.len() && self.sinks@[i as int].0@ == path@
                    && self.sink_paths().contains(path@),
                None => !self.sink_paths().contains(path@),
            },
    {
        let n: usize = self.sinks.len();
        let mut i: usize = 0;
        while i < n
            invariant
                i <= n == self.sinks@.len(),
                forall|k: int| 0 <= k < i ==> (#[trigger] self.sinks@[k]).0@ != path@,
            decreases n - i,
        {
            if vec_eq_str_bytes(&self.sinks[i].0, path) {
                proof {
                    assert(self.sink_paths()[i as int] == self.sinks@[i as int].0@);
                }
                return Some(i);
            }
            i = i + 1;
        }
        proof {
            if self.sink_paths().contains(path@) {
                let w = choose|w: int|
                    0 <= w < self.sink_paths().len() && self.sink_paths()[w] == path@;
                assert(self.sink_paths()[w] == self.sinks@[w].0@);
            }
        }
        None
    }

    /// Write to the sink keyed by `path`, opening it with the given mode
    /// on first use; `false` when opening or writing fails (the dispatch
    /// loop then ends the program successfully).
    pub fn write_file<H: IoHost>(
        &mut self,
        host: &mut H,
        path: &Str,
        text: &Str,
        append: bool,
    ) -> (r: bool)
        ensures
            final(self).sink_paths() == old(self).sink_paths() || final(self).sink_paths()
                == old(self).sink_paths().push(path@),
            old(self).sink_paths().contains(path@) ==> final(self).sink_paths() == old(
                self,
            ).sink_paths(),
    {
        match self.find_sink(path) {
            Some(i) => {
                let h = self.sinks[i].1;
                host.write(h, text.bytes())
            },
            None => {
                match host.open_write(path.bytes(), append) {
                    Some(h) => {
                        let key = copy_vec_range(path.bytes(), 0, path.len());
                        let ghost pre = self.sinks@;
                        self.sinks.push((key, h));
                        proof {
                            let va = self.sink_paths();
                            let vb = pre.map_values(|e: (Vec<u8>, u64)| e.0@).push(path@);
                            assert forall|k: int| 0 <= k < va.len() implies #[trigger] va[k]
                                == vb[k] by {
                                assert(va[k] == self.sinks@[k].0@);
                                if k < pre.len() {
                                    assert(pre.map_values(|e: (Vec<u8>, u64)| e.0@)[k]
                                        == pre[k].0@);
                                }
                            }
                            assert(va =~= vb);
                        }
                        host.write(h, text.bytes())
                    },
                    None => false,
                }
            },
        }
    }

    /// Flush and release the sink keyed by `path`; `false` when flushing
    /// fails. Closing a path that was never written is a no-op that
    /// reports success.
    pub fn close_file<H: IoHost>(&mut self, host: &mut H, path: &Str) -> (r: bool)
        ensures
            final(self).sink_paths().len() <= old(self).sink_paths().len(),
            !old(self).sink_paths().contains(path@) ==> *final(self) == *old(self) && r,
    {
        match self.find_sink(path) {
            Some(i) => {
                let entry = self.sinks.remove(i);
                host.close_write(entry.1)
            },
            None => true,
        }
    }

    /// Flush and release every sink; `true` when all flushes succeed.
    pub fn close_all<H: IoHost>(&mut self, host: &mut H) -> (r: bool) {
        let mut ok: bool = true;
        loop
            invariant
                true,
            decreases self.sinks@.len(),
        {
            let n: usize = self.sinks.len();
            if n == 0 {
                return ok;
            }
            let entry = self.sinks.remove(n - 1);
            if !host.close_write(entry.1) {
                ok = false;
            }
        }
    }
}

/// Append all of `d` to `v`.
fn append_vec(v: &mut Vec<u8>, d: &Vec<u8>)
    ensures
        final(v)@ == old(v)@ + d@,
{
    let n: usize = d.len();
    let mut i: usize = 0;
    while i < n
        invariant
            i <= n == d@.len(),
            v@ == old(v)@ + d@.subrange(0, i as int),
        decreases n - i,
    {
        v.push(d[i]);
        assert(v@ =~= old(v)@ + d@.subrange(0, i + 1));
        i = i + 1;
    }
    assert(v@ =~= old(v)@ + d@);
}

/// A fresh copy of `v[a..b]`.
fn copy_vec_range(v: &Vec<u8>, a: usize, b: usize) -> (r: Vec<u8>)
    requires
        a <= b <= v@.len(),
    ensures
        r@ == v@.subrange(a as int, b as int),
{
    let mut r: Vec<u8> = Vec::new();
    let mut i: usize = a;
    while i < b
        invariant
            a <= i <= b <= v@.len(),
            r@ == v@.subrange(a as int, i as int),
        decreases b - i,
    {
        r.push(v[i]);
        assert(r@ =~= v@.subrange(a as int, i + 1));
        i = i + 1;
    }
    r
}

} // verus!
