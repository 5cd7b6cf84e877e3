//! The current record and its lazily split fields.
//!
//! The engine holds the record (`$0`) and an optional cached field vector.
//! Splitting obeys the field-separator rules: the separator `" "` splits on
//! runs of blanks (space and tab) with leading and trailing blanks
//! dropped; any other single byte splits literally; a longer separator is
//! a regex pattern. Writing a field pads the vector with empty fields as
//! needed and rebuilds the record by joining with the output field
//! separator.

use vstd::prelude::*;
use crate::error::VmError;
use crate::regex_cache::{re_valid, split_spec, RegexCache};
use crate::str_impl::{Str, sat_i64};

verus! {

/// A blank byte under the default separator: space or tab.
pub open spec fn is_blank(b: u8) -> bool {
    b == 32 || b == 9
}

/// Length of the run of non-blank bytes of `s` starting at `i`.
pub open spec fn word_run(s: Seq<u8>, i: int) -> int
    decreases s.len() - i,
{
    if i < 0 || i >= s.len() || is_blank(s[i]) {
        0
    } else {
        1 + word_run(s, i + 1)
    }
}

/// The fields of `s` under blank splitting, from `i`: maximal non-blank
/// runs, in order.
pub open spec fn blank_fields_from(s: Seq<u8>, i: int) -> Seq<Seq<u8>>
    decreases s.len() - i,
{
    if i < 0 || i >= s.len() {
        Seq::empty()
    } else if is_blank(s[i]) {
        blank_fields_from(s, i + 1)
    } else {
        let j = i + word_run(s, i);
        if i < j <= s.len() {
            seq![s.subrange(i, j)] + blank_fields_from(s, j)
        } else {
            Seq::empty()
        }
    }
}

/// The position of the first `b` in `s` at or after `i`, or `s.len()`.
pub open spec fn byte_find(s: Seq<u8>, b: u8, i: int) -> int
    decreases s.len() - i,
{
    if i < 0 || i >= s.len() {
        s.len() as int
    } else if s[i] == b {
        i
    } else {
        byte_find(s, b, i + 1)
    }
}

/// The fields of `s` under literal single-byte splitting, from `i`.
pub open spec fn byte_fields_from(s: Seq<u8>, b: u8, i: int) -> Seq<Seq<u8>>
    decreases s.len() - i + 1,
{
    if i < 0 || i > s.len() {
        Seq::empty()
    } else {
        let j = byte_find(s, b, i);
        if i <= j < s.len() {
            seq![s.subrange(i, j)] + byte_fields_from(s, b, j + 1)
        } else {
            seq![s.subrange(i, s.len() as int)]
        }
    }
}

/// The fields of record `rec` under separator `fs`: blank splitting for
/// `" "`, literal splitting for another single byte, regex splitting
/// otherwise. An empty record has no fields.
pub open spec fn fields_spec(fs: Seq<u8>, rec: Seq<u8>) -> Seq<Seq<u8>> {
    if rec.len() == 0 {
        Seq::empty()
    } else if fs.len() == 1 && fs[0] == 32 {
        blank_fields_from(rec, 0)
    } else if fs.len() == 1 {
        byte_fields_from(rec, fs[0], 0)
    } else {
        split_spec(fs, rec)
    }
}

/// `fields` joined with `sep` between consecutive fields.
pub open spec fn join_with(fields: Seq<Seq<u8>>, sep: Seq<u8>) -> Seq<u8>
    decreases fields.len(),
{
    if fields.len() == 0 {
        Seq::empty()
    } else if fields.len() == 1 {
        fields[0]
    } else {
        join_with(fields.drop_last(), sep) + sep + fields.last()
    }
}

/// `fields` padded with empty fields up to length `n`.
pub open spec fn pad_fields(fields: Seq<Seq<u8>>, n: int) -> Seq<Seq<u8>>
    decreases n - fields.len(),
{
    if fields.len() >= n {
        fields
    } else {
        pad_fields(fields.push(Seq::empty()), n)
    }
}

/// The current record and its lazily split fields.
pub struct LineEngine {
    record: Str,
    fields: Option<Vec<Str>>,
}

impl LineEngine {
    /// The bytes of the current record.
    pub closed spec fn record_view(&self) -> Seq<u8> {
        self.record@
    }

    /// Whether the field cache is filled.
    pub closed spec fn split_done(&self) -> bool {
        self.fields is Some
    }

    /// The cached fields, viewed.
    pub closed spec fn cache_view(&self) -> Seq<Seq<u8>> {
        match self.fields {
            Some(v) => v@.map_values(|f: Str| f@),
            None => Seq::empty(),
        }
    }

    /// The fields the engine works with under separator `fs`: the cache
    /// when filled, the split of the record otherwise.
    pub open spec fn eff_fields(&self, fs: Seq<u8>) -> Seq<Seq<u8>> {
        if self.split_done() {
            self.cache_view()
        } else {
            fields_spec(fs, self.record_view())
        }
    }

    /// A fresh engine with an empty record and no cache.
    pub fn new() -> (r: LineEngine)
        ensures
            r.record_view() == Seq::<u8>::empty(),
            !r.split_done(),
    {
        LineEngine { record: Str::empty(), fields: None }
    }

    /// Replace the record and drop the cache.
    pub fn set_record(&mut self, r: Str)
        ensures
            final(self).record_view() == r@,
            !final(self).split_done(),
    {
        self.record = r;
        self.fields = None;
    }

    /// Drop the field cache (the separator changed).
    pub fn invalidate(&mut self)
        ensures
            final(self).record_view() == old(self).record_view(),
            !final(self).split_done(),
    {
        self.fields = None;
    }

    /// The whole record (`$0`).
    pub fn get_record(&self) -> (r: Str)
        ensures
            r@ == self.record_view(),
    {
        self.record.dup()
    }

    /// Fill the field cache from the record if it is not yet filled. An
    /// error exactly when `fs` names an invalid regex pattern that the
    /// split would need.
    pub fn split_if_needed(&mut self, fs: &Str, rc: &mut RegexCache) -> (r: Result<
        (),
        VmError,
    >)
        ensures
            final(self).record_view() == old(self).record_view(),
            match r {
                Ok(_) => final(self).split_done() && final(self).cache_view() == old(
                    self,
                ).eff_fields(fs@),
                Err(e) => e == VmError::RegexSyntax && *final(self) == *old(self),
            },
    {
        if self.fields.is_some() {
            return Ok(());
        }
        let rec = &self.record;
        let n: usize = rec.len();
        if n == 0 {
            let v: Vec<Str> = Vec::new();
            assert(v@.map_values(|f: Str| f@) =~= Seq::<Seq<u8>>::empty());
            self.fields = Some(v);
            return Ok(());
        }
        let fsb = fs.bytes();
        if fsb.len() == 1 && fsb[0] == 32 {
            let v = split_blanks(rec);
            self.fields = Some(v);
            Ok(())
        } else if fsb.len() == 1 {
            let v = split_byte(rec, fsb[0]);
            self.fields = Some(v);
            Ok(())
        } else {
            match rc.split_pieces(fs, rec) {
                Ok(v) => {
                    proof {
                        let vv = v@.map_values(|f: Str| f@);
                        assert forall|i: int| 0 <= i < vv.len() implies #[trigger] vv[i]
                            == split_spec(fs@, self.record_view())[i] by {
                            assert(vv[i] == v@[i]@);
                        }
                        assert(vv =~= split_spec(fs@, self.record_view()));
                    }
                    self.fields = Some(v);
                    Ok(())
                },
                Err(e) => Err(e),
            }
        }
    }

    /// The number of fields, splitting first if needed (clamped into
    /// `i64`).
    pub fn nf(&mut self, fs: &Str, rc: &mut RegexCache) -> (r: Result<i64, VmError>)
        ensures
            final(self).record_view() == old(self).record_view(),
            match r {
                Ok(n) => final(self).split_done() && final(self).cache_view() == old(
                    self,
                ).eff_fields(fs@) && n == sat_i64(old(self).eff_fields(fs@).len() as int),
                Err(e) => e == VmError::RegexSyntax && *final(self) == *old(self),
            },
    {
        match self.split_if_needed(fs, rc) {
            Ok(_) => {
                match &self.fields {
                    Some(v) => {
                        let n: usize = v.len();
                        proof {
                            assert(self.cache_view().len() == v@.len());
                        }
                        if (n as u128) >= 0x7fff_ffff_ffff_ffff_u128 {
                            Ok(0x7fff_ffff_ffff_ffff_i64)
                        } else {
                            Ok(n as i64)
                        }
                    },
                    None => {
                        proof {
                            assert(false);
                        }
                        Err(VmError::RegexSyntax)
                    },
                }
            },
            Err(e) => Err(e),
        }
    }

    /// Read `$col`: the whole record for 0, the field for 1 or higher (the
    /// empty string past the last field), an error for a negative column.
    pub fn get_col(&mut self, col: i64, fs: &Str, rc: &mut RegexCache) -> (r: Result<
        Str,
        VmError,
    >)
        ensures
            final(self).record_view() == old(self).record_view(),
            match r {
                Ok(f) => col >= 0
                    && (col == 0 ==> f@ == old(self).record_view() && *final(self) == *old(self))
                    && (col >= 1 ==> final(self).split_done()
                        && final(self).cache_view() == old(self).eff_fields(fs@)
                        && f@ == ({
                            let eff = old(self).eff_fields(fs@);
                            if 1 <= col <= eff.len() {
                                eff[col - 1]
                            } else {
                                Seq::<u8>::empty()
                            }
                        })),
                Err(e) => (col < 0 && e == VmError::NegativeField)
                    || (col >= 1 && e == VmError::RegexSyntax && *final(self) == *old(self)),
            },
    {
        if col < 0 {
            return Err(VmError::NegativeField);
        }
        if col == 0 {
            return Ok(self.record.dup());
        }
        match self.split_if_needed(fs, rc) {
            Ok(_) => {
                match &self.fields {
                    Some(v) => {
                        let n: usize = v.len();
                        if (col as u128) <= (n as u128) {
                            let i: usize = (col - 1) as usize;
                            proof {
                                assert(self.cache_view()[i as int] == v@[i as int]@);
                            }
                            Ok(v[i].dup())
                        } else {
                            Ok(Str::empty())
                        }
                    },
                    None => {
                        proof {
                            assert(false);
                        }
                        Err(VmError::RegexSyntax)
                    },
                }
            },
            Err(e) => Err(e),
        }
    }
}

/// How a joined field is escaped.
#[derive(Clone, Copy, PartialEq, Eq, Structural, Debug)]
pub enum JoinEscape {
    Plain,
    Csv,
    Tsv,
}

/// A field under the chosen escape.
pub open spec fn esc_apply(m: JoinEscape, f: Seq<u8>) -> Seq<u8> {
    match m {
        JoinEscape::Plain => f,
        JoinEscape::Csv => crate::convert::escape_csv_spec(f),
        JoinEscape::Tsv => crate::convert::escape_tsv_spec(f),
    }
}

/// Fields `max(start,1) ..= min(end, len)`, 1-based inclusive; empty when
/// the clamped bounds cross.
pub open spec fn select_fields(fields: Seq<Seq<u8>>, start: int, end: int) -> Seq<Seq<u8>> {
    let lo = if start < 1 {
        1int
    } else {
        start
    };
    let hi = if end > fields.len() {
        fields.len() as int
    } else {
        end
    };
    if lo > hi {
        Seq::empty()
    } else {
        fields.subrange(lo - 1, hi)
    }
}

/// The selected fields, each escaped, joined with `sep`.
pub open spec fn join_cols_spec(
    fields: Seq<Seq<u8>>,
    start: int,
    end: int,
    sep: Seq<u8>,
    m: JoinEscape,
) -> Seq<u8> {
    join_with(select_fields(fields, start, end).map_values(|f: Seq<u8>| esc_apply(m, f)), sep)
}

impl LineEngine {
    /// Write `$col`. Column 0 replaces the whole record and drops the
    /// cache. A column of 1 or higher pads the fields with empty strings
    /// up to `col`, writes the field, and rebuilds the record by joining
    /// with `ofs`. A negative column is an error.
    pub fn set_col(
        &mut self,
        col: i64,
        val: &Str,
        ofs: &Str,
        fs: &Str,
        rc: &mut RegexCache,
    ) -> (r: Result<(), VmError>)
        ensures
            match r {
                Ok(_) => col >= 0
                    && (col == 0 ==> final(self).record_view() == val@
                        && !final(self).split_done())
                    && (col >= 1 ==> ({
                        let upd = pad_fields(old(self).eff_fields(fs@), col as int).update(
                            col - 1,
                            val@,
                        );
                        final(self).split_done() && final(self).cache_view() == upd
                            && final(self).record_view() == join_with(upd, ofs@)
                    })),
                Err(e) => (col < 0 && e == VmError::NegativeField)
                    || (col >= 1 && e == VmError::RegexSyntax && *final(self) == *old(self)),
            },
    {
        if col < 0 {
            return Err(VmError::NegativeField);
        }
        if col == 0 {
            self.record = val.dup();
            self.fields = None;
            return Ok(());
        }
        match self.split_if_needed(fs, rc) {
            Ok(_) => {},
            Err(e) => {
                return Err(e);
            },
        }
        let ghost eff = self.cache_view();
        let mut fv: Option<Vec<Str>> = None;
        std::mem::swap(&mut fv, &mut self.fields);
        let mut v: Vec<Str> = match fv {
            Some(v) => v,
            None => {
                proof {
                    assert(false);
                }
                Vec::new()
            },
        };
        proof {
            assert(views_of(v@) =~= pad_partial(eff, v@.len() as int));
        }
        loop
            invariant_except_break
                col >= 1,
                v@.len() >= eff.len(),
                v@.len() == eff.len() || v@.len() <= col,
                views_of(v@) == pad_partial(eff, v@.len() as int),
            ensures
                views_of(v@) == pad_fields(eff, col as int),
                v@.len() >= col,
            decreases (col as int) + 1 - v@.len(),
        {
            let ln: usize = v.len();
            if (ln as u128) >= (col as u128) {
                proof {
                    if eff.len() >= col {
                        lemma_pad_fixpoint(eff, col as int);
                        assert(pad_partial(eff, v@.len() as int) =~= eff);
                    } else {
                        lemma_pad_shape(eff, col as int);
                        assert(views_of(v@) =~= pad_fields(eff, col as int));
                    }
                }
                break;
            }
            let ghost pre = v@;
            v.push(Str::empty());
            proof {
                lemma_push_field_views(pre, v@, Seq::<u8>::empty());
                assert(views_of(v@) =~= pad_partial(eff, v@.len() as int));
            }
        }
        let ln2: usize = v.len();
        proof {
            assert(0 <= col - 1 < ln2 as int);
        }
        let idx: usize = (col - 1) as usize;
        let ghost pre = v@;
        let newf = val.dup();
        v[idx] = newf;
        proof {
            assert(idx as int == col - 1);
            assert(v@ == pre.update(idx as int, v@[idx as int]));
            assert(v@[idx as int]@ == val@);
            let va = views_of(v@);
            let vb = pad_fields(eff, col as int).update(col - 1, val@);
            assert(views_of(pre).len() == pre.len());
            assert forall|k: int| 0 <= k < va.len() implies #[trigger] va[k] == vb[k] by {
                assert(va[k] == v@[k]@);
                if k != idx as int {
                    assert(v@[k] == pre[k]);
                    assert(views_of(pre)[k] == pre[k]@);
                    assert(vb[k] == pad_fields(eff, col as int)[k]);
                }
            }
            assert(va =~= vb);
        }
        let joined = join_fields(&v, ofs);
        self.record = joined;
        self.fields = Some(v);
        Ok(())
    }

    /// Join the escaped fields `start ..= end` (clamped to the current
    /// field count) with `sep`.
    pub fn join_cols(
        &mut self,
        start: i64,
        end: i64,
        sep: &Str,
        m: JoinEscape,
        fs: &Str,
        rc: &mut RegexCache,
    ) -> (r: Result<Str, VmError>)
        ensures
            final(self).record_view() == old(self).record_view(),
            match r {
                Ok(out) => final(self).split_done() && final(self).cache_view() == old(
                    self,
                ).eff_fields(fs@) && out@ == join_cols_spec(
                    old(self).eff_fields(fs@),
                    start as int,
                    end as int,
                    sep@,
                    m,
                ),
                Err(e) => e == VmError::RegexSyntax && *final(self) == *old(self),
            },
    {
        match self.split_if_needed(fs, rc) {
            Ok(_) => {},
            Err(e) => {
                return Err(e);
            },
        }
        let v: &Vec<Str> = match &self.fields {
            Some(v) => v,
            None => {
                proof {
                    assert(false);
                }
                return Err(VmError::RegexSyntax);
            },
        };
        let ghost eff = self.cache_view();
        let n: usize = v.len();
        let lo: usize = if start < 1 {
            0
        } else {
            if (start as u128) > (n as u128) {
                n
            } else {
                (start - 1) as usize
            }
        };
        let hi: usize = if end < 1 {
            0
        } else if (end as u128) > (n as u128) {
            n
        } else {
            end as usize
        };
        let ghost sel = select_fields(eff, start as int, end as int);
        if lo >= hi {
            proof {
                assert(sel =~= Seq::<Seq<u8>>::empty());
            }
            return Ok(Str::empty());
        }
        let mut out: Vec<u8> = Vec::new();
        let mut i: usize = lo;
        while i < hi
            invariant
                lo <= i <= hi <= n == v@.len(),
                eff == views_of(v@),
                sel == select_fields(eff, start as int, end as int),
                sel =~= eff.subrange(lo as int, hi as int),
                out@ == join_with(
                    sel.subrange(0, i - lo).map_values(|f: Seq<u8>| esc_apply(m, f)),
                    sep@,
                ),
            decreases hi - i,
        {
            let f = &v[i];
            let escaped: Str = match m {
                JoinEscape::Plain => f.dup(),
                JoinEscape::Csv => crate::convert::escape_csv(f),
                JoinEscape::Tsv => crate::convert::escape_tsv(f),
            };
            if i > lo {
                push_all(&mut out, sep.bytes());
            }
            push_all(&mut out, escaped.bytes());
            proof {
                let em = sel.subrange(0, i + 1 - lo).map_values(|f2: Seq<u8>| esc_apply(m, f2));
                let ep = sel.subrange(0, i - lo).map_values(|f2: Seq<u8>| esc_apply(m, f2));
                assert(sel[i - lo] == eff[i as int]);
                assert(eff[i as int] == v@[i as int]@);
                assert(em.drop_last() =~= ep);
                assert(em.last() == esc_apply(m, sel[i - lo]));
                if i > lo {
                    assert(out@ =~= join_with(ep, sep@) + sep@ + esc_apply(m, eff[i as int]));
                } else {
                    assert(em.len() == 1);
                    assert(out@ =~= esc_apply(m, eff[i as int]));
                }
            }
            i = i + 1;
        }
        proof {
            assert(sel.subrange(0, hi - lo) =~= sel);
        }
        Ok(Str::from_vec(out))
    }
}

/// The views of a field vector.
pub open spec fn views_of(v: Seq<Str>) -> Seq<Seq<u8>> {
    v.map_values(|f: Str| f@)
}

/// Padding already past `n` is a fixed point.
proof fn lemma_pad_fixpoint(fields: Seq<Seq<u8>>, n: int)
    requires
        fields.len() >= n,
    ensures
        pad_fields(fields, n) == fields,
{
}

/// Padding to `n` appends exactly `n - len` empty fields.
proof fn lemma_pad_shape(fields: Seq<Seq<u8>>, n: int)
    requires
        fields.len() <= n,
    ensures
        pad_fields(fields, n) == fields + Seq::new(
            (n - fields.len()) as nat,
            |i: int| Seq::<u8>::empty(),
        ),
    decreases n - fields.len(),
{
    if fields.len() < n {
        lemma_pad_shape(fields.push(Seq::<u8>::empty()), n);
        assert(fields.push(Seq::<u8>::empty()) + Seq::new(
            (n - fields.len() - 1) as nat,
            |i: int| Seq::<u8>::empty(),
        ) =~= fields + Seq::new((n - fields.len()) as nat, |i: int| Seq::<u8>::empty()));
    } else {
        assert(fields + Seq::new(0, |i: int| Seq::<u8>::empty()) =~= fields);
    }
}

/// `pad_fields(eff, n)` cut to `k` entries, for the padding loop: `eff`
/// itself while `k` is within `eff`, else `eff` followed by empties.
pub open spec fn pad_partial(eff: Seq<Seq<u8>>, k: int) -> Seq<Seq<u8>> {
    if k <= eff.len() {
        eff.subrange(0, if k < 0 {
            0
        } else {
            k
        })
    } else {
        eff + Seq::new((k - eff.len()) as nat, |i: int| Seq::<u8>::empty())
    }
}

/// Append all of `v` to `out`.
fn push_all(out: &mut Vec<u8>, v: &Vec<u8>)
    ensures
        final(out)@ == old(out)@ + v@,
{
    let n: usize = v.len();
    let mut i: usize = 0;
    while i < n
        invariant
            i <= n == v@.len(),
            out@ == old(out)@ + v@.subrange(0, i as int),
        decreases n - i,
    {
        out.push(v[i]);
        assert(out@ =~= old(out)@ + v@.subrange(0, i + 1));
        i = i + 1;
    }
    assert(out@ =~= old(out)@ + v@);
}

/// Join the fields with `sep`.
fn join_fields(v: &Vec<Str>, sep: &Str) -> (r: Str)
    ensures
        r@ == join_with(views_of(v@), sep@),
{
    let n: usize = v.len();
    let mut out: Vec<u8> = Vec::new();
    let mut i: usize = 0;
    while i < n
        invariant
            i <= n == v@.len(),
            out@ == join_with(views_of(v@).subrange(0, i as int), sep@),
        decreases n - i,
    {
        if i > 0 {
            push_all(&mut out, sep.bytes());
        }
        push_all(&mut out, v[i].bytes());
        proof {
            let vs = views_of(v@);
            let cur = vs.subrange(0, i + 1);
            assert(cur.drop_last() =~= vs.subrange(0, i as int));
            assert(cur.last() == vs[i as int]);
            assert(vs[i as int] == v@[i as int]@);
            if i > 0 {
                assert(out@ =~= join_with(vs.subrange(0, i as int), sep@) + sep@ + vs[
                    i as int]);
            } else {
                assert(cur.len() == 1);
                assert(out@ =~= vs[i as int]);
            }
        }
        i = i + 1;
    }
    proof {
        assert(views_of(v@).subrange(0, n as int) =~= views_of(v@));
    }
    Str::from_vec(out)
}

/// Split `text` under the field-separator rules: no pieces for the empty
/// string, blank splitting for `" "`, literal splitting for another single
/// byte, regex splitting otherwise. An error exactly when a regex split
/// was needed and the pattern is invalid.
pub fn split_text(text: &Str, pat: &Str, rc: &mut RegexCache) -> (r: Result<
    Vec<Str>,
    VmError,
>)
    ensures
        match r {
            Ok(v) => v@.map_values(|f: Str| f@) == fields_spec(pat@, text@),
            Err(e) => e == VmError::RegexSyntax && !re_valid(pat@),
        },
{
    let n: usize = text.len();
    if n == 0 {
        let v: Vec<Str> = Vec::new();
        assert(v@.map_values(|f: Str| f@) =~= Seq::<Seq<u8>>::empty());
        return Ok(v);
    }
    let pb = pat.bytes();
    if pb.len() == 1 && pb[0] == 32 {
        Ok(split_blanks(text))
    } else if pb.len() == 1 {
        Ok(split_byte(text, pb[0]))
    } else {
        match rc.split_pieces(pat, text) {
            Ok(v) => {
                proof {
                    let vv = v@.map_values(|f: Str| f@);
                    assert forall|i: int| 0 <= i < vv.len() implies #[trigger] vv[i]
                        == split_spec(pat@, text@)[i] by {
                        assert(vv[i] == v@[i]@);
                    }
                    assert(vv =~= split_spec(pat@, text@));
                }
                Ok(v)
            },
            Err(e) => Err(e),
        }
    }
}

/// Split `rec` on runs of blanks, dropping leading and trailing blanks.
fn split_blanks(rec: &Str) -> (r: Vec<Str>)
    ensures
        r@.map_values(|f: Str| f@) == blank_fields_from(rec@, 0),
{
    let sv = rec.bytes();
    let n: usize = sv.len();
    let mut r: Vec<Str> = Vec::new();
    let mut i: usize = 0;
    while i < n
        invariant
            i <= n == sv@.len(),
            sv@ == rec@,
            blank_fields_from(rec@, 0) =~= r@.map_values(|f: Str| f@) + blank_fields_from(
                rec@,
                i as int,
            ),
        decreases n - i,
    {
        if sv[i] == 32 || sv[i] == 9 {
            i = i + 1;
        } else {
            let mut j: usize = i;
            while j < n && sv[j] != 32 && sv[j] != 9
                invariant
                    i <= j <= n == sv@.len(),
                    sv@ == rec@,
                    forall|k: int| i <= k < j ==> !is_blank(rec@[k]),
                decreases n - j,
            {
                j = j + 1;
            }
            proof {
                lemma_word_run_exact(rec@, i as int, j as int);
            }
            let ghost pre = r@;
            let piece = copy_str_range(sv, i, j);
            r.push(piece);
            proof {
                assert(blank_fields_from(rec@, i as int) == seq![rec@.subrange(
                    i as int,
                    j as int,
                )] + blank_fields_from(rec@, j as int));
                lemma_push_field_views(pre, r@, rec@.subrange(i as int, j as int));
                assert(blank_fields_from(rec@, 0) =~= r@.map_values(|f: Str| f@)
                    + blank_fields_from(rec@, j as int));
            }
            i = j;
        }
    }
    assert(blank_fields_from(rec@, n as int) == Seq::<Seq<u8>>::empty());
    assert(blank_fields_from(rec@, 0) =~= r@.map_values(|f: Str| f@));
    r
}

/// Split `rec` at each occurrence of `b`.
fn split_byte(rec: &Str, b: u8) -> (r: Vec<Str>)
    requires
        rec@.len() > 0,
    ensures
        r@.map_values(|f: Str| f@) == byte_fields_from(rec@, b, 0),
{
    let sv = rec.bytes();
    let n: usize = sv.len();
    let mut r: Vec<Str> = Vec::new();
    let mut i: usize = 0;
    loop
        invariant_except_break
            i <= n == sv@.len(),
            sv@ == rec@,
            byte_fields_from(rec@, b, 0) =~= r@.map_values(|f: Str| f@) + byte_fields_from(
                rec@,
                b,
                i as int,
            ),
        ensures
            byte_fields_from(rec@, b, 0) == r@.map_values(|f: Str| f@),
        decreases n + 1 - i,
    {
        let mut j: usize = i;
        while j < n && sv[j] != b
            invariant
                i <= j <= n == sv@.len(),
                sv@ == rec@,
                forall|k: int| i <= k < j ==> rec@[k] != b,
            decreases n - j,
        {
            j = j + 1;
        }
        proof {
            lemma_byte_find_exact(rec@, b, i as int, j as int);
        }
        let ghost pre = r@;
        let piece = copy_str_range(sv, i, j);
        r.push(piece);
        if j < n {
            proof {
                assert(byte_fields_from(rec@, b, i as int) == seq![rec@.subrange(
                    i as int,
                    j as int,
                )] + byte_fields_from(rec@, b, j + 1));
                lemma_push_field_views(pre, r@, rec@.subrange(i as int, j as int));
                assert(byte_fields_from(rec@, b, 0) =~= r@.map_values(|f: Str| f@)
                    + byte_fields_from(rec@, b, j + 1));
            }
            i = j + 1;
        } else {
            proof {
                assert(byte_fields_from(rec@, b, i as int) == seq![rec@.subrange(
                    i as int,
                    n as int,
                )]);
                lemma_push_field_views(pre, r@, rec@.subrange(i as int, n as int));
                assert(byte_fields_from(rec@, b, 0) =~= r@.map_values(|f: Str| f@));
            }
            break;
        }
    }
    r
}

/// A fresh string holding `v[a..b]`.
fn copy_str_range(v: &Vec<u8>, a: usize, b: usize) -> (r: Str)
    requires
        a <= b <= v@.len(),
    ensures
        r@ == v@.subrange(a as int, b as int),
{
    let mut out: Vec<u8> = Vec::new();
    let mut i: usize = a;
    while i < b
        invariant
            a <= i <= b <= v@.len(),
            out@ == v@.subrange(a as int, i as int),
        decreases b - i,
    {
        out.push(v[i]);
        assert(out@ =~= v@.subrange(a as int, i + 1));
        i = i + 1;
    }
    Str::from_vec(out)
}

/// A run of non-blanks from `i` to `j`, with a blank or the end at `j`,
/// pins `word_run` down.
proof fn lemma_word_run_exact(s: Seq<u8>, i: int, j: int)
    requires
        0 <= i <= j <= s.len(),
        forall|k: int| i <= k < j ==> !is_blank(s[k]),
        j == s.len() || is_blank(s[j]),
    ensures
        word_run(s, i) == j - i,
    decreases j - i,
{
    if i < j {
        lemma_word_run_exact(s, i + 1, j);
    }
}

/// No `b` in `[i, j)` and `b` or the end at `j` pins `byte_find` down.
pub proof fn lemma_byte_find_exact(s: Seq<u8>, b: u8, i: int, j: int)
    requires
        0 <= i <= j <= s.len(),
        forall|k: int| i <= k < j ==> s[k] != b,
        j == s.len() || s[j] == b,
    ensures
        byte_find(s, b, i) == if j < s.len() {
            j
        } else {
            s.len() as int
        },
    decreases j - i,
{
    if i < j {
        lemma_byte_find_exact(s, b, i + 1, j);
    }
}

/// `byte_find` from 0 stays within the sequence and lands on `b` when
/// short of the end.
pub proof fn lemma_byte_find_props_pub(s: Seq<u8>, b: u8)
    ensures
        0 <= byte_find(s, b, 0) <= s.len(),
        byte_find(s, b, 0) < s.len() ==> s[byte_find(s, b, 0)] == b,
{
    lemma_byte_find_props(s, b, 0);
}

/// The first occurrence is no later than any occurrence.
pub proof fn lemma_byte_find_le(s: Seq<u8>, b: u8, j: int)
    requires
        0 <= j < s.len(),
        s[j] == b,
    ensures
        byte_find(s, b, 0) <= j,
{
    lemma_byte_find_at_most(s, b, 0, j);
}

/// From any start at or before an occurrence, `byte_find` is at most it.
proof fn lemma_byte_find_at_most(s: Seq<u8>, b: u8, i: int, j: int)
    requires
        0 <= i <= j < s.len(),
        s[j] == b,
    ensures
        byte_find(s, b, i) <= j,
    decreases j - i,
{
    if s[i] != b && i < j {
        lemma_byte_find_at_most(s, b, i + 1, j);
    }
}

/// `byte_find` stays within `[i, len]` and lands on `b` when short of the
/// end.
proof fn lemma_byte_find_props(s: Seq<u8>, b: u8, i: int)
    requires
        0 <= i <= s.len(),
    ensures
        i <= byte_find(s, b, i) <= s.len(),
        byte_find(s, b, i) < s.len() ==> s[byte_find(s, b, i)] == b,
    decreases s.len() - i,
{
    if i < s.len() && s[i] != b {
        lemma_byte_find_props(s, b, i + 1);
    }
}

/// Literal splitting always yields at least one piece.
proof fn lemma_byte_fields_nonempty(s: Seq<u8>, b: u8, i: int)
    requires
        0 <= i <= s.len(),
    ensures
        byte_fields_from(s, b, i).len() >= 1,
{
}

/// Joining with one leading piece: the piece, then the separator and the
/// rest.
proof fn lemma_join_prepend(p: Seq<u8>, fields: Seq<Seq<u8>>, sep: Seq<u8>)
    ensures
        join_with(seq![p] + fields, sep) == if fields.len() == 0 {
            p
        } else {
            p + sep + join_with(fields, sep)
        },
    decreases fields.len(),
{
    let all = seq![p] + fields;
    if fields.len() == 0 {
        assert(all.len() == 1);
        assert(all[0] == p);
    } else {
        assert(all.drop_last() =~= seq![p] + fields.drop_last());
        assert(all.last() == fields.last());
        lemma_join_prepend(p, fields.drop_last(), sep);
        if fields.len() == 1 {
            assert(fields.drop_last().len() == 0);
            assert(join_with(fields, sep) == fields[0]);
            assert(fields.last() == fields[0]);
        } else {
            assert((p + sep + join_with(fields.drop_last(), sep)) + sep + fields.last() =~= p
                + sep + (join_with(fields.drop_last(), sep) + sep + fields.last()));
        }
    }
}

/// Joining the literal split of `s[i..]` with the separator byte gives
/// `s[i..]` back.
proof fn lemma_byte_fields_join(s: Seq<u8>, b: u8, i: int)
    requires
        0 <= i <= s.len(),
    ensures
        join_with(byte_fields_from(s, b, i), seq![b]) == s.subrange(i, s.len() as int),
    decreases s.len() - i + 1,
{
    lemma_byte_find_props(s, b, i);
    let j = byte_find(s, b, i);
    if i <= j < s.len() {
        lemma_byte_fields_join(s, b, j + 1);
        lemma_byte_fields_nonempty(s, b, j + 1);
        lemma_join_prepend(
            s.subrange(i, j),
            byte_fields_from(s, b, j + 1),
            seq![b],
        );
        assert(s.subrange(i, j) + seq![b] + s.subrange(j + 1, s.len() as int) =~= s.subrange(
            i,
            s.len() as int,
        ));
    }
}

/// The field round-trip law: when the field separator is a single byte
/// other than the blank, joining columns 1 through NF with that separator
/// gives the current record back, immediately after a read-triggered
/// split and absent any field writes.
pub proof fn lemma_join_columns_round_trip(fs: Seq<u8>, rec: Seq<u8>)
    requires
        fs.len() == 1,
        fs[0] != 32,
    ensures
        join_cols_spec(
            fields_spec(fs, rec),
            1,
            fields_spec(fs, rec).len() as int,
            fs,
            JoinEscape::Plain,
        ) == rec,
{
    let fields = fields_spec(fs, rec);
    let sel = select_fields(fields, 1, fields.len() as int);
    let mapped = sel.map_values(|f: Seq<u8>| esc_apply(JoinEscape::Plain, f));
    if rec.len() == 0 {
        assert(fields.len() == 0);
        assert(mapped.len() == 0);
        assert(rec =~= Seq::<u8>::empty());
    } else {
        assert(sel =~= fields);
        assert forall|k: int| 0 <= k < mapped.len() implies #[trigger] mapped[k]
            == fields[k] by {
        }
        assert(mapped =~= fields);
        lemma_byte_fields_join(rec, fs[0], 0);
        assert(seq![fs[0]] =~= fs);
        assert(rec.subrange(0, rec.len() as int) =~= rec);
    }
}

/// Pushing a string whose view is `piece` extends the viewed sequence by
/// `piece`.
proof fn lemma_push_field_views(pre: Seq<Str>, post: Seq<Str>, piece: Seq<u8>)
    requires
        post.len() == pre.len() + 1,
        forall|k: int| 0 <= k < pre.len() ==> post[k] == pre[k],
        post[post.len() - 1]@ == piece,
    ensures
        post.map_values(|f: Str| f@) == pre.map_values(|f: Str| f@) + seq![piece],
{
    let va = post.map_values(|f: Str| f@);
    let vb = pre.map_values(|f: Str| f@) + seq![piece];
    assert forall|k: int| 0 <= k < va.len() implies #[trigger] va[k] == vb[k] by {
        assert(va[k] == post[k]@);
        if k < pre.len() {
            assert(pre.map_values(|f: Str| f@)[k] == pre[k]@);
        }
    }
    assert(va =~= vb);
}

} // verus!
