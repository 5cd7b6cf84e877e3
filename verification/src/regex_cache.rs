//! Compiled-regex reuse and the regex-driven string operations.
//!
//! A [`Pattern`] pairs a compiled regex with its source text; the regex
//! engine's answers are named by the uninterpreted functions [`re_valid`]
//! (does the pattern compile) and [`re_find_at`] (the leftmost match at or
//! after a position). Everything built on top — match location,
//! substitute-first, substitute-all with `&` expansion, split — is verified
//! against those names. The [`RegexCache`] reuses compilations keyed by
//! pattern text.

use vstd::prelude::*;
use crate::error::VmError;
use crate::str_impl::{Str, sat_i64};

verus! {

#[verifier::external_type_specification]
#[verifier::external_body]
pub struct ExRegex(regex::bytes::Regex);

/// Whether the regex engine accepts `pat` as a pattern: a function of the
/// pattern text alone.
pub uninterp spec fn re_valid(pat: Seq<u8>) -> bool;

/// What the regex engine's leftmost search over `hay` from `start` returns
/// for the pattern `pat`: the half-open byte span of the match, or `None`.
/// A function of the three arguments alone.
pub uninterp spec fn re_find_at(pat: Seq<u8>, hay: Seq<u8>, start: int) -> Option<(int, int)>;

/// `re_find_at` seen through the bounds every real search satisfies: a
/// reported span outside `start <= lo <= hi <= hay.len()` counts as no
/// match. The searches the library performs always satisfy the bounds, so
/// on them this equals `re_find_at`.
pub open spec fn find_norm(pat: Seq<u8>, hay: Seq<u8>, start: int) -> Option<(int, int)> {
    match re_find_at(pat, hay, start) {
        Some((lo, hi)) => if start <= lo && lo <= hi && hi <= hay.len() {
            Some((lo, hi))
        } else {
            None
        },
        None => None,
    }
}

/// Relies on `regex::bytes::Regex::new`: whether a pattern compiles is a
/// function of the pattern text alone; a pattern that is not UTF-8 is
/// rejected.
#[verifier::external_body]
fn regex_compile(pat: &Vec<u8>) -> (r: Option<regex::bytes::Regex>)
    ensures
        r is Some <==> re_valid(pat@),
{
    match std::str::from_utf8(pat.as_slice()) {
        Ok(p) => regex::bytes::Regex::new(p).ok(),
        Err(_) => None,
    }
}

/// A compiled regex paired with the pattern text it was compiled from.
pub struct Pattern {
    re: regex::bytes::Regex,
    src: Vec<u8>,
}

/// A byte-for-byte copy of a vector.
fn clone_bytes(v: &Vec<u8>) -> (r: Vec<u8>)
    ensures
        r@ == v@,
{
    let n: usize = v.len();
    let mut r: Vec<u8> = Vec::new();
    let mut i: usize = 0;
    while i < n
        invariant
            i <= n == v@.len(),
            r@ == v@.subrange(0, i as int),
        decreases n - i,
    {
        r.push(v[i]);
        assert(r@ =~= v@.subrange(0, i + 1));
        i = i + 1;
    }
    assert(r@ =~= v@);
    r
}

impl Pattern {
    /// The pattern text this value was compiled from.
    pub closed spec fn pat_view(&self) -> Seq<u8> {
        self.src@
    }

    /// Every `Pattern` holds a pattern the engine accepted.
    #[verifier::type_invariant]
    spec fn inv(&self) -> bool {
        re_valid(self.src@)
    }

    /// Compile `pat`; `None` exactly when the engine rejects the pattern.
    pub fn compile(pat: &Str) -> (r: Option<Pattern>)
        ensures
            r is Some <==> re_valid(pat@),
            r matches Some(p) ==> p.pat_view() == pat@,
    {
        let src = clone_bytes(pat.bytes());
        match regex_compile(&src) {
            Some(re) => Some(Pattern { re, src }),
            None => None,
        }
    }

    /// Relies on `regex::bytes::Regex::find_at`: the leftmost match of the
    /// pattern in `hay` at or after `from`, whose span lies within
    /// `from <= lo <= hi <= hay.len()`. The pattern this value was compiled
    /// from is `self.pat_view()`; construction pairs the two.
    #[verifier::external_body]
    fn find_at_raw(&self, hay: &Vec<u8>, from: usize) -> (r: Option<(usize, usize)>)
        requires
            from <= hay@.len(),
        ensures
            r is Some <==> re_find_at(self.pat_view(), hay@, from as int) is Some,
            r matches Some(m) ==> re_find_at(self.pat_view(), hay@, from as int)
                == Some((m.0 as int, m.1 as int)) && from <= m.0 <= m.1 <= hay@.len(),
    {
        self.re.find_at(hay.as_slice(), from).map(|m| (m.start(), m.end()))
    }

    /// The leftmost match at or after `from`, in the clamped spec view.
    fn find_at(&self, hay: &Vec<u8>, from: usize) -> (r: Option<(usize, usize)>)
        requires
            from <= hay@.len(),
        ensures
            match r {
                Some(m) => find_norm(self.pat_view(), hay@, from as int) == Some(
                    (m.0 as int, m.1 as int),
                ) && from <= m.0 <= m.1 <= hay@.len(),
                None => find_norm(self.pat_view(), hay@, from as int) is None,
            },
    {
        self.find_at_raw(hay, from)
    }

    /// Whether the pattern matches anywhere in `s`.
    pub fn is_match(&self, s: &Str) -> (r: bool)
        ensures
            r == is_match_spec(self.pat_view(), s@),
    {
        self.find_at(s.bytes(), 0).is_some()
    }

    /// The 1-based start of the leftmost match (0 when there is none)
    /// paired with the match length (-1 when there is none): the values of
    /// the match-start and match-length variables.
    pub fn match_loc(&self, s: &Str) -> (r: (i64, i64))
        ensures
            r.0 == sat_i64(match_loc_spec(self.pat_view(), s@).0),
            r.1 == sat_i64(match_loc_spec(self.pat_view(), s@).1),
            (r.0 != 0) == is_match_spec(self.pat_view(), s@),
    {
        match self.find_at(s.bytes(), 0) {
            Some(m) => {
                let lo: i64 = if (m.0 as u128) >= 0x7fff_ffff_ffff_ffff_u128 {
                    0x7fff_ffff_ffff_ffff_i64
                } else {
                    (m.0 as i64) + 1
                };
                let ln: i64 = if ((m.1 - m.0) as u128) >= 0x7fff_ffff_ffff_ffff_u128 {
                    0x7fff_ffff_ffff_ffff_i64
                } else {
                    (m.1 - m.0) as i64
                };
                (lo, ln)
            },
            None => (0, -1),
        }
    }
}

/// Whether `pat` matches anywhere in `s`.
pub open spec fn is_match_spec(pat: Seq<u8>, s: Seq<u8>) -> bool {
    find_norm(pat, s, 0) is Some
}

/// The pair (1-based match start or 0, match length or -1) of the leftmost
/// match of `pat` in `s`.
pub open spec fn match_loc_spec(pat: Seq<u8>, s: Seq<u8>) -> (int, int) {
    match find_norm(pat, s, 0) {
        Some((lo, hi)) => (lo + 1, hi - lo),
        None => (0, -1),
    }
}

/// `IsMatch(p, s)` exactly when `Match(p, s) != 0`: the match-location law.
pub proof fn lemma_is_match_iff_match_loc(pat: Seq<u8>, s: Seq<u8>)
    ensures
        is_match_spec(pat, s) <==> match_loc_spec(pat, s).0 != 0,
{
}

/// The replacement text with `&` expanded to the matched bytes and `\&`
/// kept as a literal `&`; every other byte stands as itself.
pub open spec fn expand_repl(repl: Seq<u8>, matched: Seq<u8>) -> Seq<u8>
    decreases repl.len(),
{
    if repl.len() == 0 {
        Seq::empty()
    } else if repl.len() >= 2 && repl[0] == 92 && repl[1] == 38 {
        seq![38u8] + expand_repl(repl.subrange(2, repl.len() as int), matched)
    } else if repl[0] == 38 {
        matched + expand_repl(repl.subrange(1, repl.len() as int), matched)
    } else {
        seq![repl[0]] + expand_repl(repl.subrange(1, repl.len() as int), matched)
    }
}

/// Append `expand_repl(repl, matched)` to `out`.
fn push_expanded(out: &mut Vec<u8>, repl: &Vec<u8>, matched: &Vec<u8>)
    ensures
        final(out)@ == old(out)@ + expand_repl(repl@, matched@),
    decreases repl@.len(),
{
    let n: usize = repl.len();
    let m: usize = matched.len();
    let mut i: usize = 0;
    assert(repl@.subrange(0, n as int) =~= repl@);
    while i < n
        invariant
            i <= n == repl@.len(),
            m == matched@.len(),
            old(out)@ + expand_repl(repl@, matched@) == out@ + expand_repl(
                repl@.subrange(i as int, n as int),
                matched@,
            ),
        decreases n - i,
    {
        let ghost pre = repl@.subrange(i as int, n as int);
        if i + 1 < n && repl[i] == 92 && repl[i + 1] == 38 {
            out.push(38);
            proof {
                assert(pre.subrange(2, pre.len() as int) =~= repl@.subrange(
                    i + 2,
                    n as int,
                ));
            }
            i = i + 2;
        } else if repl[i] == 38 {
            let ghost mid = out@;
            let mut j: usize = 0;
            while j < m
                invariant
                    j <= m == matched@.len(),
                    out@ == mid + matched@.subrange(0, j as int),
                decreases m - j,
            {
                out.push(matched[j]);
                assert(out@ =~= mid + matched@.subrange(0, j + 1));
                j = j + 1;
            }
            proof {
                assert(out@ =~= mid + matched@);
                assert(pre.subrange(1, pre.len() as int) =~= repl@.subrange(
                    i + 1,
                    n as int,
                ));
            }
            i = i + 1;
        } else {
            out.push(repl[i]);
            proof {
                assert(pre.subrange(1, pre.len() as int) =~= repl@.subrange(
                    i + 1,
                    n as int,
                ));
            }
            i = i + 1;
        }
    }
    assert(expand_repl(repl@.subrange(n as int, n as int), matched@) == Seq::<u8>::empty());
    assert(out@ =~= old(out)@ + expand_repl(repl@, matched@));
}

/// Append `v[a..b]` to `out`.
fn push_range(out: &mut Vec<u8>, v: &Vec<u8>, a: usize, b: usize)
    requires
        a <= b <= v@.len(),
    ensures
        final(out)@ == old(out)@ + v@.subrange(a as int, b as int),
{
    let mut i: usize = a;
    while i < b
        invariant
            a <= i <= b <= v@.len(),
            out@ == old(out)@ + v@.subrange(a as int, i as int),
        decreases b - i,
    {
        out.push(v[i]);
        assert(out@ =~= old(out)@ + v@.subrange(a as int, i + 1));
        i = i + 1;
    }
}

/// A fresh copy of `v[a..b]`.
fn copy_range(v: &Vec<u8>, a: usize, b: usize) -> (r: Vec<u8>)
    requires
        a <= b <= v@.len(),
    ensures
        r@ == v@.subrange(a as int, b as int),
{
    let mut r: Vec<u8> = Vec::new();
    push_range(&mut r, v, a, b);
    r
}

/// The result and substitution count of substitute-first: the leftmost
/// match replaced by the expanded replacement, or the input unchanged.
pub open spec fn subst_first_spec(pat: Seq<u8>, repl: Seq<u8>, s: Seq<u8>) -> (Seq<u8>, int) {
    match find_norm(pat, s, 0) {
        None => (s, 0),
        Some((lo, hi)) => (
            s.subrange(0, lo) + expand_repl(repl, s.subrange(lo, hi)) + s.subrange(
                hi,
                s.len() as int,
            ),
            1,
        ),
    }
}

/// The tail of substitute-all from `start`: every match from `start` on is
/// replaced; an empty match substitutes, copies one byte and moves on.
pub open spec fn gsub_from(pat: Seq<u8>, repl: Seq<u8>, s: Seq<u8>, start: int) -> (
    Seq<u8>,
    int,
)
    decreases s.len() - start + 1,
{
    if start < 0 || start > s.len() {
        (Seq::empty(), 0)
    } else {
        match find_norm(pat, s, start) {
            None => (s.subrange(start, s.len() as int), 0),
            Some((lo, hi)) => if hi > lo {
                let rest = gsub_from(pat, repl, s, hi);
                (
                    s.subrange(start, lo) + expand_repl(repl, s.subrange(lo, hi)) + rest.0,
                    rest.1 + 1,
                )
            } else {
                let one = if lo < s.len() {
                    seq![s[lo]]
                } else {
                    Seq::<u8>::empty()
                };
                let rest = gsub_from(pat, repl, s, lo + 1);
                (
                    s.subrange(start, lo) + expand_repl(repl, Seq::empty()) + one + rest.0,
                    rest.1 + 1,
                )
            },
        }
    }
}

/// The result and substitution count of substitute-all.
pub open spec fn gsub_spec(pat: Seq<u8>, repl: Seq<u8>, s: Seq<u8>) -> (Seq<u8>, int) {
    gsub_from(pat, repl, s, 0)
}

/// The leftmost match of positive width at or after `start`; zero-width
/// matches are stepped over.
pub open spec fn find_nonempty(pat: Seq<u8>, s: Seq<u8>, start: int) -> Option<(int, int)>
    decreases s.len() - start + 1,
{
    if start < 0 || start > s.len() {
        None
    } else {
        match find_norm(pat, s, start) {
            None => None,
            Some((lo, hi)) => if hi > lo {
                Some((lo, hi))
            } else {
                find_nonempty(pat, s, lo + 1)
            },
        }
    }
}

/// The tail of splitting from `start`: the text between separator matches,
/// in order. A span that does not advance is treated as no separator.
pub open spec fn split_from(pat: Seq<u8>, s: Seq<u8>, start: int) -> Seq<Seq<u8>>
    decreases s.len() - start + 1,
{
    if start < 0 || start > s.len() {
        Seq::empty()
    } else {
        match find_nonempty(pat, s, start) {
            None => seq![s.subrange(start, s.len() as int)],
            Some((lo, hi)) => if start <= lo && lo < hi && hi <= s.len() {
                seq![s.subrange(start, lo)] + split_from(pat, s, hi)
            } else {
                seq![s.subrange(start, s.len() as int)]
            },
        }
    }
}

/// The pieces of `s` split by the separator pattern: none for the empty
/// string, otherwise the text between matches.
pub open spec fn split_spec(pat: Seq<u8>, s: Seq<u8>) -> Seq<Seq<u8>> {
    if s.len() == 0 {
        Seq::empty()
    } else {
        split_from(pat, s, 0)
    }
}

impl Pattern {
    /// Substitute the leftmost match by the expanded replacement; the
    /// second component says whether a substitution was made.
    pub fn subst_first(&self, repl: &Str, s: &Str) -> (r: (Str, i64))
        ensures
            r.0@ == subst_first_spec(self.pat_view(), repl@, s@).0,
            r.1 == subst_first_spec(self.pat_view(), repl@, s@).1,
    {
        let sv = s.bytes();
        let n: usize = sv.len();
        match self.find_at(sv, 0) {
            None => (s.dup(), 0),
            Some(m) => {
                let mut out: Vec<u8> = Vec::new();
                push_range(&mut out, sv, 0, m.0);
                let matched = copy_range(sv, m.0, m.1);
                push_expanded(&mut out, repl.bytes(), &matched);
                push_range(&mut out, sv, m.1, n);
                proof {
                    assert(out@ =~= subst_first_spec(self.pat_view(), repl@, s@).0);
                }
                (Str::from_vec(out), 1)
            },
        }
    }

    /// Substitute every match by the expanded replacement; the second
    /// component is the substitution count (clamped into `i64`).
    pub fn subst_all(&self, repl: &Str, s: &Str) -> (r: (Str, i64))
        ensures
            r.0@ == gsub_spec(self.pat_view(), repl@, s@).0,
            r.1 == sat_i64(gsub_spec(self.pat_view(), repl@, s@).1),
    {
        let sv = s.bytes();
        let rv = repl.bytes();
        let n: usize = sv.len();
        let ghost pat = self.pat_view();
        let mut out: Vec<u8> = Vec::new();
        let mut cnt: i64 = 0;
        let ghost mut g: int = 0int;
        let mut pos: usize = 0;
        loop
            invariant_except_break
                n == sv@.len(),
                sv@ == s@,
                rv@ == repl@,
                pat == self.pat_view(),
                pos <= n + 1,
                0 <= g <= pos,
                cnt == sat_i64(g),
                gsub_spec(pat, repl@, s@).0 == out@ + gsub_from(pat, repl@, s@, pos as int).0,
                gsub_spec(pat, repl@, s@).1 == g + gsub_from(pat, repl@, s@, pos as int).1,
            ensures
                out@ == gsub_spec(pat, repl@, s@).0,
                cnt == sat_i64(gsub_spec(pat, repl@, s@).1),
            decreases n + 1 - pos,
        {
            if pos > n {
                proof {
                    assert(gsub_from(pat, repl@, s@, pos as int) == (Seq::<u8>::empty(), 0int));
                    assert(out@ =~= out@ + Seq::<u8>::empty());
                }
                break;
            }
            let ghost out_pre = out@;
            match self.find_at(sv, pos) {
                None => {
                    push_range(&mut out, sv, pos, n);
                    proof {
                        assert(gsub_from(pat, repl@, s@, pos as int) == (
                            s@.subrange(pos as int, n as int),
                            0int,
                        ));
                        assert(out@ =~= out_pre + s@.subrange(pos as int, n as int));
                    }
                    break;
                },
                Some(m) => {
                    push_range(&mut out, sv, pos, m.0);
                    if m.1 > m.0 {
                        let matched = copy_range(sv, m.0, m.1);
                        push_expanded(&mut out, rv, &matched);
                        proof {
                            let rest = gsub_from(pat, repl@, s@, m.1 as int);
                            assert(gsub_from(pat, repl@, s@, pos as int).0 == s@.subrange(
                                pos as int,
                                m.0 as int,
                            ) + expand_repl(repl@, s@.subrange(m.0 as int, m.1 as int))
                                + rest.0);
                            assert(out_pre + gsub_from(pat, repl@, s@, pos as int).0 =~= out@
                                + rest.0);
                            g = g + 1;
                        }
                        pos = m.1;
                        cnt = if cnt < 0x7fff_ffff_ffff_ffff_i64 {
                            cnt + 1
                        } else {
                            cnt
                        };
                    } else if m.0 < n {
                        let matched: Vec<u8> = Vec::new();
                        push_expanded(&mut out, rv, &matched);
                        let b = sv[m.0];
                        out.push(b);
                        proof {
                            let rest = gsub_from(pat, repl@, s@, m.0 + 1);
                            assert(gsub_from(pat, repl@, s@, pos as int).0 == s@.subrange(
                                pos as int,
                                m.0 as int,
                            ) + expand_repl(repl@, Seq::empty()) + seq![s@[m.0 as int]]
                                + rest.0);
                            assert(out_pre + gsub_from(pat, repl@, s@, pos as int).0 =~= out@
                                + rest.0);
                            g = g + 1;
                        }
                        pos = m.0 + 1;
                        cnt = if cnt < 0x7fff_ffff_ffff_ffff_i64 {
                            cnt + 1
                        } else {
                            cnt
                        };
                    } else {
                        let matched: Vec<u8> = Vec::new();
                        push_expanded(&mut out, rv, &matched);
                        proof {
                            assert(gsub_from(pat, repl@, s@, m.0 + 1) == (
                                Seq::<u8>::empty(),
                                0int,
                            ));
                            assert(gsub_from(pat, repl@, s@, pos as int).0 == s@.subrange(
                                pos as int,
                                m.0 as int,
                            ) + expand_repl(repl@, Seq::empty()) + Seq::<u8>::empty()
                                + Seq::<u8>::empty());
                            assert(out_pre + gsub_from(pat, repl@, s@, pos as int).0 =~= out@);
                            g = g + 1;
                        }
                        cnt = if cnt < 0x7fff_ffff_ffff_ffff_i64 {
                            cnt + 1
                        } else {
                            cnt
                        };
                        break;
                    }
                },
            }
        }
        (Str::from_vec(out), cnt)
    }

    /// The leftmost match of positive width at or after `from`.
    fn find_nonempty_at(&self, sv: &Vec<u8>, from: usize) -> (r: Option<(usize, usize)>)
        requires
            from <= sv@.len(),
        ensures
            match r {
                Some(m) => find_nonempty(self.pat_view(), sv@, from as int) == Some(
                    (m.0 as int, m.1 as int),
                ) && from <= m.0 < m.1 <= sv@.len(),
                None => find_nonempty(self.pat_view(), sv@, from as int) is None,
            },
    {
        let n: usize = sv.len();
        let mut cur: usize = from;
        loop
            invariant
                from <= cur <= n == sv@.len(),
                find_nonempty(self.pat_view(), sv@, from as int) == find_nonempty(
                    self.pat_view(),
                    sv@,
                    cur as int,
                ),
            decreases n + 1 - cur,
        {
            match self.find_at(sv, cur) {
                None => {
                    return None;
                },
                Some(m) => {
                    if m.1 > m.0 {
                        return Some(m);
                    }
                    if m.0 >= n {
                        proof {
                            assert(find_nonempty(self.pat_view(), sv@, m.0 + 1) is None);
                        }
                        return None;
                    }
                    cur = m.0 + 1;
                },
            }
        }
    }

    /// Split `s` by the pattern: the text between matches of positive
    /// width, in order; no pieces for the empty string.
    pub fn split_pieces(&self, s: &Str) -> (r: Vec<Str>)
        ensures
            r@.len() == split_spec(self.pat_view(), s@).len(),
            forall|i: int|
                0 <= i < r@.len() ==> (#[trigger] r@[i])@ == split_spec(
                    self.pat_view(),
                    s@,
                )[i],
    {
        let sv = s.bytes();
        let n: usize = sv.len();
        let ghost pat = self.pat_view();
        let ghost full = split_spec(pat, s@);
        let mut r: Vec<Str> = Vec::new();
        if n == 0 {
            return r;
        }
        let mut pos: usize = 0;
        loop
            invariant_except_break
                n == sv@.len(),
                n > 0,
                sv@ == s@,
                pat == self.pat_view(),
                full == split_spec(pat, s@),
                pos <= n,
                full.len() >= r@.len(),
                full =~= r@.map_values(|p: Str| p@) + split_from(pat, s@, pos as int),
                forall|i: int|
                    0 <= i < r@.len() ==> (#[trigger] r@[i])@ == full[i],
            ensures
                r@.len() == full.len(),
                forall|i: int|
                    0 <= i < r@.len() ==> (#[trigger] r@[i])@ == full[i],
            decreases n - pos,
        {
            let ghost pre = r@;
            match self.find_nonempty_at(sv, pos) {
                None => {
                    let piece = copy_range(sv, pos, n);
                    r.push(Str::from_vec(piece));
                    proof {
                        assert(split_from(pat, s@, pos as int) =~= seq![s@.subrange(
                            pos as int,
                            n as int,
                        )]);
                        assert(r@.map_values(|p: Str| p@) =~= pre.map_values(|p: Str| p@)
                            + seq![s@.subrange(pos as int, n as int)]) by {
                            let va = r@.map_values(|p: Str| p@);
                            let vb = pre.map_values(|p: Str| p@) + seq![s@.subrange(
                                pos as int,
                                n as int,
                            )];
                            assert forall|i: int| 0 <= i < va.len() implies #[trigger] va[i]
                                == vb[i] by {
                                assert(va[i] == r@[i]@);
                                if i < pre.len() {
                                    assert(pre.map_values(|p: Str| p@)[i] == pre[i]@);
                                }
                            }
                        }
                        assert(full =~= r@.map_values(|p: Str| p@));
                        assert forall|i: int| 0 <= i < r@.len() implies (#[trigger] r@[i])@
                            == full[i] by {
                            assert(r@.map_values(|p: Str| p@)[i] == r@[i]@);
                        }
                    }
                    break;
                },
                Some(m) => {
                    let piece = copy_range(sv, pos, m.0);
                    r.push(Str::from_vec(piece));
                    proof {
                        assert(split_from(pat, s@, pos as int) =~= seq![s@.subrange(
                            pos as int,
                            m.0 as int,
                        )] + split_from(pat, s@, m.1 as int));
                        assert(r@.map_values(|p: Str| p@) =~= pre.map_values(|p: Str| p@)
                            + seq![s@.subrange(pos as int, m.0 as int)]) by {
                            let va = r@.map_values(|p: Str| p@);
                            let vb = pre.map_values(|p: Str| p@) + seq![s@.subrange(
                                pos as int,
                                m.0 as int,
                            )];
                            assert forall|i: int| 0 <= i < va.len() implies #[trigger] va[i]
                                == vb[i] by {
                                assert(va[i] == r@[i]@);
                                if i < pre.len() {
                                    assert(pre.map_values(|p: Str| p@)[i] == pre[i]@);
                                }
                            }
                        }
                        assert(full =~= r@.map_values(|p: Str| p@) + split_from(
                            pat,
                            s@,
                            m.1 as int,
                        ));
                        assert forall|i: int| 0 <= i < r@.len() implies (#[trigger] r@[i])@
                            == full[i] by {
                            assert(r@.map_values(|p: Str| p@)[i] == r@[i]@);
                            assert(full[i] == (r@.map_values(|p: Str| p@) + split_from(
                                pat,
                                s@,
                                m.1 as int,
                            ))[i]);
                        }
                    }
                    pos = m.1;
                },
            }
        }
        r
    }
}

/// Compiled-regex reuse keyed by the pattern text.
pub struct RegexCache {
    pats: Vec<Pattern>,
}

/// Byte equality between a vector and a string.
fn vec_eq_str(v: &Vec<u8>, s: &Str) -> (r: bool)
    ensures
        r <==> v@ == s@,
{
    let sv = s.bytes();
    if v.len() != sv.len() {
        assert(v@ != s@) by {
            assert(v@.len() != s@.len());
        }
        return false;
    }
    let n: usize = v.len();
    let mut i: usize = 0;
    while i < n
        invariant
            i <= n == v@.len() == sv@.len(),
            sv@ == s@,
            forall|k: int| 0 <= k < i ==> v@[k] == s@[k],
        decreases n - i,
    {
        if v[i] != sv[i] {
            assert(v@ != s@) by {
                assert(v@[i as int] != s@[i as int]);
            }
            return false;
        }
        i = i + 1;
    }
    assert(v@ =~= s@);
    true
}

impl RegexCache {
    /// A fresh empty cache.
    pub fn new() -> (r: RegexCache) {
        RegexCache { pats: Vec::new() }
    }

    /// The cached compilation of `pat`, compiling on a miss; an error
    /// exactly when the engine rejects the pattern.
    fn get_idx(&mut self, pat: &Str) -> (r: Result<usize, VmError>)
        ensures
            match r {
                Ok(i) => re_valid(pat@) && i < final(self).pats@.len()
                    && final(self).pats@[i as int].pat_view() == pat@,
                Err(e) => !re_valid(pat@) && e == VmError::RegexSyntax,
            },
    {
        let n: usize = self.pats.len();
        let mut i: usize = 0;
        while i < n
            invariant
                i <= n == self.pats@.len(),
            decreases n - i,
        {
            let p = &self.pats[i];
            if vec_eq_str(&p.src, pat) {
                proof {
                    use_type_invariant(p);
                }
                return Ok(i);
            }
            i = i + 1;
        }
        match Pattern::compile(pat) {
            Some(p) => {
                self.pats.push(p);
                Ok(n)
            },
            None => Err(VmError::RegexSyntax),
        }
    }

    /// Whether `pat` matches anywhere in `s`; an error exactly when the
    /// pattern is invalid.
    pub fn is_match(&mut self, pat: &Str, s: &Str) -> (r: Result<bool, VmError>)
        ensures
            match r {
                Ok(b) => re_valid(pat@) && b == is_match_spec(pat@, s@),
                Err(e) => !re_valid(pat@) && e == VmError::RegexSyntax,
            },
    {
        match self.get_idx(pat) {
            Ok(i) => Ok(self.pats[i].is_match(s)),
            Err(e) => Err(e),
        }
    }

    /// The 1-based start and length of the leftmost match of `pat` in `s`
    /// (0 and -1 when there is none); an error exactly when the pattern is
    /// invalid.
    pub fn match_loc(&mut self, pat: &Str, s: &Str) -> (r: Result<(i64, i64), VmError>)
        ensures
            match r {
                Ok(m) => re_valid(pat@) && m.0 == sat_i64(match_loc_spec(pat@, s@).0) && m.1
                    == sat_i64(match_loc_spec(pat@, s@).1) && ((m.0 != 0) == is_match_spec(
                    pat@,
                    s@,
                )),
                Err(e) => !re_valid(pat@) && e == VmError::RegexSyntax,
            },
    {
        match self.get_idx(pat) {
            Ok(i) => Ok(self.pats[i].match_loc(s)),
            Err(e) => Err(e),
        }
    }

    /// Substitute the leftmost match of `pat` in `s`; an error exactly when
    /// the pattern is invalid.
    pub fn subst_first(&mut self, pat: &Str, repl: &Str, s: &Str) -> (r: Result<
        (Str, i64),
        VmError,
    >)
        ensures
            match r {
                Ok(o) => re_valid(pat@) && o.0@ == subst_first_spec(pat@, repl@, s@).0 && o.1
                    == subst_first_spec(pat@, repl@, s@).1,
                Err(e) => !re_valid(pat@) && e == VmError::RegexSyntax,
            },
    {
        match self.get_idx(pat) {
            Ok(i) => Ok(self.pats[i].subst_first(repl, s)),
            Err(e) => Err(e),
        }
    }

    /// Substitute every match of `pat` in `s`; an error exactly when the
    /// pattern is invalid.
    pub fn subst_all(&mut self, pat: &Str, repl: &Str, s: &Str) -> (r: Result<
        (Str, i64),
        VmError,
    >)
        ensures
            match r {
                Ok(o) => re_valid(pat@) && o.0@ == gsub_spec(pat@, repl@, s@).0 && o.1
                    == sat_i64(gsub_spec(pat@, repl@, s@).1),
                Err(e) => !re_valid(pat@) && e == VmError::RegexSyntax,
            },
    {
        match self.get_idx(pat) {
            Ok(i) => Ok(self.pats[i].subst_all(repl, s)),
            Err(e) => Err(e),
        }
    }

    /// Split `s` by matches of `pat`; an error exactly when the pattern is
    /// invalid.
    pub fn split_pieces(&mut self, pat: &Str, s: &Str) -> (r: Result<Vec<Str>, VmError>)
        ensures
            match r {
                Ok(ps) => re_valid(pat@) && ps@.len() == split_spec(pat@, s@).len() && (
                forall|i: int|
                    0 <= i < ps@.len() ==> (#[trigger] ps@[i])@ == split_spec(pat@, s@)[i]),
                Err(e) => !re_valid(pat@) && e == VmError::RegexSyntax,
            },
    {
        match self.get_idx(pat) {
            Ok(i) => Ok(self.pats[i].split_pieces(s)),
            Err(e) => Err(e),
        }
    }
}

} // verus!
