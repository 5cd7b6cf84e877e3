//! Shared immutable byte strings and their operations.
//!
//! A [`Str`] is a reference-counted immutable byte sequence: equality is
//! byte-equality, ordering is lexicographic over bytes, `len` is the byte
//! count, and cloning is O(1) and shares storage. All operations that make
//! new contents (substring, concatenation, escaping) build a fresh string.

use vstd::prelude::*;

verus! {

/// A shared, immutable byte string: the string value of the language.
pub struct Str {
    bytes: std::rc::Rc<Vec<u8>>,
}

impl View for Str {
    type V = Seq<u8>;

    closed spec fn view(&self) -> Seq<u8> {
        self.bytes@
    }
}

/// Relies on `Rc::clone`: the clone points at the same allocation, so the
/// two handles hold equal contents.
#[verifier::external_body]
fn rc_bytes_clone(r: &std::rc::Rc<Vec<u8>>) -> (o: std::rc::Rc<Vec<u8>>)
    ensures
        o@ == r@,
{
    r.clone()
}

/// Relies on `Rc::as_ref`: the reference points at the shared contents.
#[verifier::external_body]
fn rc_bytes_ref(r: &std::rc::Rc<Vec<u8>>) -> (o: &Vec<u8>)
    ensures
        o@ == r@,
{
    r.as_ref()
}

/// An `int` clamped into `i64` from above; lengths and 1-based positions are
/// reported through this, as the register value is a signed 64-bit integer.
pub open spec fn sat_i64(x: int) -> i64 {
    if x > i64::MAX { i64::MAX } else { x as i64 }
}

/// `t` occurs in `s` at 0-based position `i`.
pub open spec fn occurs_at(s: Seq<u8>, t: Seq<u8>, i: int) -> bool {
    0 <= i && i + t.len() <= s.len() && s.subrange(i, i + t.len() as int) == t
}

/// The 1-based position of the first occurrence of `t` in `s` at or after
/// the 0-based position `i`, or 0 when there is none.
pub open spec fn find_spec(s: Seq<u8>, t: Seq<u8>, i: int) -> int
    decreases s.len() + 1 - i,
{
    if i < 0 || i + t.len() > s.len() {
        0
    } else if occurs_at(s, t, i) {
        i + 1
    } else {
        find_spec(s, t, i + 1)
    }
}

/// The bytes of `substr(s, l, r)`: 1-based inclusive `l..r`, clamped to the
/// string; empty when the clamped bounds cross.
pub open spec fn substr_spec(s: Seq<u8>, l: int, r: int) -> Seq<u8> {
    let lo = if l < 1 { 1int } else { l };
    let hi = if r > s.len() { s.len() as int } else { r };
    if lo > hi {
        Seq::empty()
    } else {
        s.subrange(lo - 1, hi)
    }
}

/// Lexicographic byte order: negative, zero or positive as `a` is less
/// than, equal to or greater than `b`.
pub open spec fn lex_cmp(a: Seq<u8>, b: Seq<u8>) -> int
    decreases a.len(),
{
    if a.len() == 0 && b.len() == 0 {
        0
    } else if a.len() == 0 {
        -1
    } else if b.len() == 0 {
        1
    } else if a[0] < b[0] {
        -1
    } else if a[0] > b[0] {
        1
    } else {
        lex_cmp(a.subrange(1, a.len() as int), b.subrange(1, b.len() as int))
    }
}

impl Str {
    /// Wrap a byte vector as a string value.
    pub fn from_vec(v: Vec<u8>) -> (r: Str)
        ensures
            r@ == v@,
    {
        Str { bytes: std::rc::Rc::new(v) }
    }

    /// The empty string.
    pub fn empty() -> (r: Str)
        ensures
            r@ == Seq::<u8>::empty(),
    {
        Str::from_vec(Vec::new())
    }

    /// Byte length of the contents.
    pub fn len(&self) -> (r: usize)
        ensures
            r == self@.len(),
    {
        rc_bytes_ref(&self.bytes).len()
    }

    /// The byte length as a register value, clamped into `i64`.
    pub fn len_int(&self) -> (r: i64)
        ensures
            r == sat_i64(self@.len() as int),
    {
        let n = self.len();
        if (n as u128) >= 0x7fff_ffff_ffff_ffff_u128 {
            0x7fff_ffff_ffff_ffff_i64
        } else {
            n as i64
        }
    }

    /// A borrowed view of the raw bytes.
    pub fn bytes(&self) -> (r: &Vec<u8>)
        ensures
            r@ == self@,
    {
        rc_bytes_ref(&self.bytes)
    }

    /// An O(1) copy that shares the underlying storage.
    pub fn dup(&self) -> (r: Str)
        ensures
            r@ == self@,
    {
        Str { bytes: rc_bytes_clone(&self.bytes) }
    }

    /// Concatenation into a fresh string.
    pub fn concat(a: &Str, b: &Str) -> (r: Str)
        ensures
            r@ == a@ + b@,
    {
        let mut v: Vec<u8> = Vec::new();
        let av = rc_bytes_ref(&a.bytes);
        let bv = rc_bytes_ref(&b.bytes);
        let mut i: usize = 0;
        while i < av.len()
            invariant
                i <= av@.len(),
                av@ == a@,
                bv@ == b@,
                v@ == a@.subrange(0, i as int),
            decreases av@.len() - i,
        {
            v.push(av[i]);
            i = i + 1;
        }
        assert(v@ == a@);
        let mut j: usize = 0;
        while j < bv.len()
            invariant
                j <= bv@.len(),
                av@ == a@,
                bv@ == b@,
                v@ == a@ + b@.subrange(0, j as int),
            decreases bv@.len() - j,
        {
            v.push(bv[j]);
            j = j + 1;
        }
        assert(v@ =~= a@ + b@);
        Str::from_vec(v)
    }

    /// The substring `[max(l,1), min(r, len)]` of 1-based inclusive bounds;
    /// empty when the clamped bounds cross.
    pub fn substr(&self, l: i64, r: i64) -> (out: Str)
        ensures
            out@ == substr_spec(self@, l as int, r as int),
    {
        let sv = rc_bytes_ref(&self.bytes);
        let n: usize = sv.len();
        if r < 1 {
            assert(substr_spec(self@, l as int, r as int) == Seq::<u8>::empty());
            return Str::empty();
        }
        let hi: usize = if (r as u128) > (n as u128) {
            n
        } else {
            r as usize
        };
        let lo64: i64 = if l < 1 {
            1
        } else {
            l
        };
        if (lo64 as u128) > (hi as u128) {
            assert(substr_spec(self@, l as int, r as int) == Seq::<u8>::empty());
            return Str::empty();
        }
        let lo: usize = lo64 as usize;
        let mut v: Vec<u8> = Vec::new();
        let mut i: usize = lo - 1;
        while i < hi
            invariant
                lo >= 1,
                lo - 1 <= i <= hi <= sv@.len(),
                sv@ == self@,
                v@ == self@.subrange(lo - 1, i as int),
            decreases hi - i,
        {
            v.push(sv[i]);
            assert(v@ =~= self@.subrange(lo - 1, i + 1));
            i = i + 1;
        }
        assert(v@ == substr_spec(self@, l as int, r as int));
        Str::from_vec(v)
    }

    /// Byte equality of contents.
    pub fn eq_str(&self, other: &Str) -> (r: bool)
        ensures
            r <==> self@ == other@,
    {
        let av = rc_bytes_ref(&self.bytes);
        let bv = rc_bytes_ref(&other.bytes);
        if av.len() != bv.len() {
            assert(self@ != other@) by {
                assert(self@.len() != other@.len());
            }
            return false;
        }
        let n: usize = av.len();
        let mut i: usize = 0;
        while i < n
            invariant
                i <= n == av@.len() == bv@.len(),
                av@ == self@,
                bv@ == other@,
                forall|k: int| 0 <= k < i ==> av@[k] == bv@[k],
            decreases n - i,
        {
            if av[i] != bv[i] {
                assert(self@ != other@) by {
                    assert(self@[i as int] != other@[i as int]);
                }
                return false;
            }
            i = i + 1;
        }
        assert(self@ =~= other@);
        true
    }

    /// Lexicographic comparison: negative, zero or positive as `self` is
    /// less than, equal to or greater than `other`.
    pub fn cmp_str(&self, other: &Str) -> (r: i64)
        ensures
            r == lex_cmp(self@, other@),
    {
        let av = rc_bytes_ref(&self.bytes);
        let bv = rc_bytes_ref(&other.bytes);
        let an: usize = av.len();
        let bn: usize = bv.len();
        let mut i: usize = 0;
        proof {
            assert(self@.subrange(0, an as int) =~= self@);
            assert(other@.subrange(0, bn as int) =~= other@);
        }
        loop
            invariant
                i <= an,
                i <= bn,
                an == av@.len(),
                bn == bv@.len(),
                av@ == self@,
                bv@ == other@,
                lex_cmp(self@, other@) == lex_cmp(
                    self@.subrange(i as int, an as int),
                    other@.subrange(i as int, bn as int),
                ),
            decreases an - i,
        {
            proof {
                let sa = self@.subrange(i as int, an as int);
                let sb = other@.subrange(i as int, bn as int);
                if i < an && i < bn && av@[i as int] == bv@[i as int] {
                    assert(sa.subrange(1, sa.len() as int) =~= self@.subrange(
                        i + 1,
                        an as int,
                    ));
                    assert(sb.subrange(1, sb.len() as int) =~= other@.subrange(
                        i + 1,
                        bn as int,
                    ));
                }
            }
            if i >= an || i >= bn {
                if an == bn {
                    return 0;
                } else if i >= an {
                    return -1;
                } else {
                    return 1;
                }
            }
            let x = av[i];
            let y = bv[i];
            if x < y {
                return -1;
            }
            if x > y {
                return 1;
            }
            i = i + 1;
        }
    }

    /// The 1-based byte index of the first occurrence of `t` in `self`,
    /// or 0 when `t` does not occur (clamped into `i64`).
    pub fn index_of(&self, t: &Str) -> (r: i64)
        ensures
            r == sat_i64(find_spec(self@, t@, 0)),
    {
        let sv = rc_bytes_ref(&self.bytes);
        let tv = rc_bytes_ref(&t.bytes);
        let n: usize = sv.len();
        let m: usize = tv.len();
        if m > n {
            assert(find_spec(self@, t@, 0) == 0);
            return 0;
        }
        let mut i: usize = 0;
        while i <= n - m
            invariant
                m <= n,
                i <= n - m + 1,
                n == sv@.len(),
                m == tv@.len(),
                sv@ == self@,
                tv@ == t@,
                find_spec(self@, t@, 0) == find_spec(self@, t@, i as int),
            decreases n - m + 1 - i,
        {
            let mut k: usize = 0;
            let mut matched: bool = true;
            while k < m
                invariant
                    i + m <= n,
                    k <= m,
                    n == sv@.len(),
                    m == tv@.len(),
                    sv@ == self@,
                    tv@ == t@,
                    matched <==> (forall|j: int| 0 <= j < k ==> self@[i + j] == t@[j]),
                decreases m - k,
            {
                if sv[i + k] != tv[k] {
                    matched = false;
                    k = m;
                } else {
                    k = k + 1;
                }
            }
            if matched {
                proof {
                    assert(self@.subrange(i as int, i + m) =~= t@);
                    assert(occurs_at(self@, t@, i as int));
                }
                let r: i64 = if (i as u128) >= 0x7fff_ffff_ffff_ffff_u128 {
                    0x7fff_ffff_ffff_ffff_i64
                } else {
                    (i as i64) + 1
                };
                assert(r == sat_i64(find_spec(self@, t@, i as int)));
                return r;
            }
            proof {
                let wit = choose|j: int| 0 <= j < m && self@[i + j] != t@[j];
                assert(self@.subrange(i as int, i + m)[wit] != t@[wit]);
                assert(!occurs_at(self@, t@, i as int));
            }
            i = i + 1;
        }
        assert(find_spec(self@, t@, i as int) == 0);
        0
    }
}

impl Clone for Str {
    /// Cloning shares the underlying storage; the contents are equal.
    fn clone(&self) -> (r: Str)
        ensures
            r@ == self@,
    {
        self.dup()
    }
}

impl Default for Str {
    /// The default string is empty.
    fn default() -> (r: Str)
        ensures
            r@ == Seq::<u8>::empty(),
    {
        Str::empty()
    }
}

/// `Concat(a, b)` followed by `Substr(·, 1, LenStr(a))` gives `a` back, for
/// all strings: the concatenation law of substrings.
pub proof fn lemma_concat_substr(a: Seq<u8>, b: Seq<u8>)
    ensures
        substr_spec(a + b, 1, a.len() as int) == a,
{
    if a.len() == 0 {
        assert(substr_spec(a + b, 1, 0) =~= a);
    } else {
        assert((a + b).subrange(0, a.len() as int) =~= a);
    }
}

/// `find_spec` is 0 exactly when `t` does not occur in `s`; otherwise it is
/// the 1-based position of the first occurrence.
pub proof fn lemma_find_spec_correct(s: Seq<u8>, t: Seq<u8>, i: int)
    requires
        0 <= i,
    ensures
        find_spec(s, t, i) == 0 <==> (forall|j: int| i <= j ==> !occurs_at(s, t, j)),
        find_spec(s, t, i) > 0 ==> occurs_at(s, t, find_spec(s, t, i) - 1)
            && find_spec(s, t, i) - 1 >= i
            && (forall|j: int| i <= j < find_spec(s, t, i) - 1 ==> !occurs_at(s, t, j)),
    decreases s.len() + 1 - i,
{
    if i + t.len() > s.len() {
        assert forall|j: int| i <= j implies !occurs_at(s, t, j) by {}
    } else if occurs_at(s, t, i) {
    } else {
        lemma_find_spec_correct(s, t, i + 1);
    }
}

} // verus!
