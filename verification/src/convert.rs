//! Numeric conversions and output escaping on byte strings.
//!
//! `Int` to `Str` is canonical base-10 with no padding. `Str` to `Int`
//! parses an optional sign and a run of decimal digits and reduces the
//! value modulo 2^64 into two's complement; an input with no digits gives
//! 0. The hex parser additionally accepts an `0x`/`0X` prefix. The float
//! scanner finds the longest prefix of the form
//! `sign? digits ['.' digits] [('e'|'E') sign? digits]` (with at least one
//! digit in the mantissa); conversion of that prefix to a float value is the
//! host's task.

use vstd::prelude::*;
use crate::str_impl::Str;

verus! {

/// 2^64 as a 128-bit constant for modular accumulation.
pub const TWO64_U128: u128 = 0x1_0000_0000_0000_0000;

/// 2^63 as an unsigned 64-bit constant.
pub const TWO63_U64: u64 = 0x8000_0000_0000_0000;

/// ASCII decimal digit.
pub open spec fn is_digit(b: u8) -> bool {
    48 <= b <= 57
}

/// ASCII hex digit.
pub open spec fn is_hex_digit(b: u8) -> bool {
    48 <= b <= 57 || 97 <= b <= 102 || 65 <= b <= 70
}

/// Value of a hex digit.
pub open spec fn hex_digit_val(b: u8) -> nat {
    if 48 <= b <= 57 {
        (b - 48) as nat
    } else if 97 <= b <= 102 {
        (b - 87) as nat
    } else if 65 <= b <= 70 {
        (b - 55) as nat
    } else {
        0
    }
}

/// Length of the run of decimal digits of `s` starting at `i`.
pub open spec fn digit_run(s: Seq<u8>, i: int) -> int
    decreases s.len() - i,
{
    if i < 0 || i >= s.len() || !is_digit(s[i]) {
        0
    } else {
        1 + digit_run(s, i + 1)
    }
}

/// Length of the run of hex digits of `s` starting at `i`.
pub open spec fn hex_run(s: Seq<u8>, i: int) -> int
    decreases s.len() - i,
{
    if i < 0 || i >= s.len() || !is_hex_digit(s[i]) {
        0
    } else {
        1 + hex_run(s, i + 1)
    }
}

/// The value of a sequence of decimal digits, reduced modulo 2^64 at every
/// step (the accumulation the parser performs).
pub open spec fn digits_val_mod(s: Seq<u8>) -> nat
    decreases s.len(),
{
    if s.len() == 0 {
        0
    } else {
        ((digits_val_mod(s.drop_last()) * 10 + (s.last() - 48)) % (TWO64_U128 as int)) as nat
    }
}

/// The value of a sequence of hex digits, reduced modulo 2^64 at every step.
pub open spec fn hex_val_mod(s: Seq<u8>) -> nat
    decreases s.len(),
{
    if s.len() == 0 {
        0
    } else {
        (hex_val_mod(s.drop_last()) * 16 + hex_digit_val(s.last())) % (TWO64_U128 as nat)
    }
}

/// A non-negative value below 2^64 taken into `i64` as two's complement.
pub open spec fn wrap_pos(v: nat) -> i64 {
    if v >= TWO63_U64 {
        (v - TWO64_U128) as i64
    } else {
        v as i64
    }
}

/// The negation of a value below 2^64, as two's complement in `i64`.
pub open spec fn wrap_neg(v: nat) -> i64 {
    if v > TWO63_U64 {
        (TWO64_U128 - v) as i64
    } else {
        (-(v as int)) as i64
    }
}

/// The decimal digits of `m`, most significant first.
pub open spec fn u64_digits(m: nat) -> Seq<u8>
    decreases m,
{
    if m < 10 {
        seq![(48 + m) as u8]
    } else {
        u64_digits(m / 10).push((48 + m % 10) as u8)
    }
}

/// The canonical base-10 text of `n`: a `-` sign for negatives, digits with
/// no padding.
pub open spec fn int_to_str_spec(n: int) -> Seq<u8> {
    if n >= 0 {
        u64_digits(n as nat)
    } else {
        seq![45u8] + u64_digits((-n) as nat)
    }
}

/// Position after an optional leading `+`/`-` sign, paired with whether the
/// sign was `-`.
pub open spec fn sign_skip(s: Seq<u8>) -> (bool, int) {
    if s.len() > 0 && s[0] == 45 {
        (true, 1int)
    } else if s.len() > 0 && s[0] == 43 {
        (false, 1int)
    } else {
        (false, 0int)
    }
}

/// The integer value of `s`: optional sign, then the leading run of decimal
/// digits, reduced into two's complement; 0 when there are no digits.
pub open spec fn str_to_int_spec(s: Seq<u8>) -> i64 {
    let (neg, st) = sign_skip(s);
    let d = digit_run(s, st);
    if d == 0 {
        0
    } else {
        let v = digits_val_mod(s.subrange(st, st + d));
        if neg {
            wrap_neg(v)
        } else {
            wrap_pos(v)
        }
    }
}

/// Position after an optional `0x`/`0X` prefix at `i`.
pub open spec fn hex_prefix_skip(s: Seq<u8>, i: int) -> int {
    if i + 2 <= s.len() && s[i] == 48 && (s[i + 1] == 120 || s[i + 1] == 88) {
        i + 2
    } else {
        i
    }
}

/// The hex integer value of `s`: optional sign, optional `0x`/`0X`, then the
/// leading run of hex digits, reduced into two's complement; 0 when there
/// are no digits.
pub open spec fn hex_str_to_int_spec(s: Seq<u8>) -> i64 {
    let (neg, st) = sign_skip(s);
    let st2 = hex_prefix_skip(s, st);
    let d = hex_run(s, st2);
    if d == 0 {
        0
    } else {
        let v = hex_val_mod(s.subrange(st2, st2 + d));
        if neg {
            wrap_neg(v)
        } else {
            wrap_pos(v)
        }
    }
}

/// Append the decimal digits of `m` to `v`.
pub(crate) fn push_u64_digits(v: &mut Vec<u8>, m: u64)
    ensures
        final(v)@ == old(v)@ + u64_digits(m as nat),
    decreases m,
{
    if m < 10 {
        v.push(48 + (m as u8));
        assert(v@ =~= old(v)@ + u64_digits(m as nat));
    } else {
        push_u64_digits(v, m / 10);
        v.push(48 + ((m % 10) as u8));
        assert(v@ =~= old(v)@ + u64_digits(m as nat));
    }
}

/// Canonical base-10 text of `n`.
pub fn int_to_str(n: i64) -> (r: Str)
    ensures
        r@ == int_to_str_spec(n as int),
{
    let mut v: Vec<u8> = Vec::new();
    if n >= 0 {
        push_u64_digits(&mut v, n as u64);
    } else {
        v.push(45);
        let m: u64 = (-(n as i128)) as u64;
        push_u64_digits(&mut v, m);
        assert(v@ =~= seq![45u8] + u64_digits(m as nat));
    }
    Str::from_vec(v)
}

/// The two's-complement `i64` of an accumulated magnitude and sign.
pub(crate) fn wrap_signed(v: u64, neg: bool) -> (r: i64)
    ensures
        r == if neg {
            wrap_neg(v as nat)
        } else {
            wrap_pos(v as nat)
        },
{
    if neg {
        if v > TWO63_U64 {
            ((TWO64_U128 - (v as u128)) as u64) as i64
        } else if v == TWO63_U64 {
            i64::MIN
        } else {
            -(v as i64)
        }
    } else {
        if v >= TWO63_U64 {
            ((v as i128) - (TWO64_U128 as i128)) as i64
        } else {
            v as i64
        }
    }
}

/// Parse the integer value of `s` (optional sign, decimal digits, wrap into
/// two's complement; no digits give 0).
pub fn str_to_int(s: &Str) -> (r: i64)
    ensures
        r == str_to_int_spec(s@),
{
    let sv = s.bytes();
    let n: usize = sv.len();
    let mut neg: bool = false;
    let mut st: usize = 0;
    if n > 0 && sv[0] == 45 {
        neg = true;
        st = 1;
    } else if n > 0 && sv[0] == 43 {
        st = 1;
    }
    assert((neg, st as int) == sign_skip(s@));
    let mut i: usize = st;
    let mut acc: u64 = 0;
    while i < n && sv[i] >= 48 && sv[i] <= 57
        invariant
            st <= i <= n,
            n == sv@.len(),
            sv@ == s@,
            forall|k: int| st <= k < i ==> is_digit(s@[k]),
            acc as nat == digits_val_mod(s@.subrange(st as int, i as int)),
        decreases n - i,
    {
        let d: u64 = (sv[i] - 48) as u64;
        let t: u128 = (acc as u128) * 10 + (d as u128);
        acc = (t % TWO64_U128) as u64;
        proof {
            assert(s@.subrange(st as int, i + 1).drop_last() =~= s@.subrange(
                st as int,
                i as int,
            ));
            assert(s@.subrange(st as int, i + 1).last() == s@[i as int]);
        }
        i = i + 1;
    }
    proof {
        lemma_digit_run_exact(s@, st as int, i as int);
    }
    if i == st {
        assert(str_to_int_spec(s@) == 0);
        return 0;
    }
    wrap_signed(acc, neg)
}

/// A run of digits from `st` to `i` with a non-digit (or the end) at `i`
/// pins `digit_run` down.
pub proof fn lemma_digit_run_exact(s: Seq<u8>, st: int, i: int)
    requires
        0 <= st <= i <= s.len(),
        forall|k: int| st <= k < i ==> is_digit(s[k]),
        i == s.len() || !is_digit(s[i]),
    ensures
        digit_run(s, st) == i - st,
    decreases i - st,
{
    if st < i {
        lemma_digit_run_exact(s, st + 1, i);
    }
}

/// As `lemma_digit_run_exact`, for hex digits.
proof fn lemma_hex_run_exact(s: Seq<u8>, st: int, i: int)
    requires
        0 <= st <= i <= s.len(),
        forall|k: int| st <= k < i ==> is_hex_digit(s[k]),
        i == s.len() || !is_hex_digit(s[i]),
    ensures
        hex_run(s, st) == i - st,
    decreases i - st,
{
    if st < i {
        lemma_hex_run_exact(s, st + 1, i);
    }
}

/// Parse the hex integer value of `s` (optional sign, optional `0x`/`0X`,
/// hex digits, wrap into two's complement; no digits give 0).
pub fn hex_str_to_int(s: &Str) -> (r: i64)
    ensures
        r == hex_str_to_int_spec(s@),
{
    let sv = s.bytes();
    let n: usize = sv.len();
    let mut neg: bool = false;
    let mut st: usize = 0;
    if n > 0 && sv[0] == 45 {
        neg = true;
        st = 1;
    } else if n > 0 && sv[0] == 43 {
        st = 1;
    }
    assert((neg, st as int) == sign_skip(s@));
    if st + 2 <= n && sv[st] == 48 && (sv[st + 1] == 120 || sv[st + 1] == 88) {
        st = st + 2;
    }
    assert(st as int == hex_prefix_skip(s@, sign_skip(s@).1));
    let mut i: usize = st;
    let mut acc: u64 = 0;
    while i < n && (sv[i] >= 48 && sv[i] <= 57 || sv[i] >= 97 && sv[i] <= 102 || sv[i] >= 65
        && sv[i] <= 70)
        invariant
            st <= i <= n,
            n == sv@.len(),
            sv@ == s@,
            forall|k: int| st <= k < i ==> is_hex_digit(s@[k]),
            acc as nat == hex_val_mod(s@.subrange(st as int, i as int)),
        decreases n - i,
    {
        let b = sv[i];
        let d: u64 = if b >= 97 {
            (b - 87) as u64
        } else if b >= 65 {
            (b - 55) as u64
        } else {
            (b - 48) as u64
        };
        assert(d as nat == hex_digit_val(s@[i as int]));
        let t: u128 = (acc as u128) * 16 + (d as u128);
        acc = (t % TWO64_U128) as u64;
        proof {
            assert(s@.subrange(st as int, i + 1).drop_last() =~= s@.subrange(
                st as int,
                i as int,
            ));
            assert(s@.subrange(st as int, i + 1).last() == s@[i as int]);
        }
        i = i + 1;
    }
    proof {
        lemma_hex_run_exact(s@, st as int, i as int);
    }
    if i == st {
        assert(hex_str_to_int_spec(s@) == 0);
        return 0;
    }
    wrap_signed(acc, neg)
}

/// Every byte of `u64_digits(m)` is a decimal digit, and there is at least
/// one.
proof fn lemma_u64_digits_shape(m: nat)
    ensures
        u64_digits(m).len() >= 1,
        forall|i: int| 0 <= i < u64_digits(m).len() ==> is_digit(#[trigger] u64_digits(m)[i]),
    decreases m,
{
    if m >= 10 {
        lemma_u64_digits_shape(m / 10);
    }
}

/// Parsing the canonical digits of `m` gives `m` back, for `m` below 2^64.
proof fn lemma_digits_val_mod_round(m: nat)
    requires
        m < TWO64_U128,
    ensures
        digits_val_mod(u64_digits(m)) == m,
    decreases m,
{
    if m < 10 {
        assert(u64_digits(m).drop_last() =~= Seq::<u8>::empty());
        assert(digits_val_mod(Seq::<u8>::empty()) == 0);
        assert(digits_val_mod(u64_digits(m)) == (m as int) % (TWO64_U128 as int)) by {
            assert(u64_digits(m).last() == (48 + m) as u8);
        }
        vstd::arithmetic::div_mod::lemma_small_mod(m, TWO64_U128 as nat);
    } else {
        lemma_digits_val_mod_round(m / 10);
        assert(u64_digits(m).drop_last() =~= u64_digits(m / 10));
        assert(u64_digits(m).last() == (48 + m % 10) as u8);
        vstd::arithmetic::div_mod::lemma_fundamental_div_mod(m as int, 10);
        vstd::arithmetic::div_mod::lemma_small_mod(m, TWO64_U128 as nat);
    }
}

/// The round-trip law of integer text: `StrToInt(IntToStr(n)) == n` for
/// every `Int` value `n`.
pub proof fn lemma_int_str_round_trip(n: i64)
    ensures
        str_to_int_spec(int_to_str_spec(n as int)) == n,
{
    if n >= 0 {
        let s = int_to_str_spec(n as int);
        lemma_u64_digits_shape(n as nat);
        lemma_digits_val_mod_round(n as nat);
        assert(is_digit(s[0]));
        assert(sign_skip(s) == (false, 0int));
        lemma_digit_run_exact(s, 0, s.len() as int);
        assert(s.subrange(0, s.len() as int) =~= s);
        assert(wrap_pos(digits_val_mod(s)) == n);
    } else {
        let m = (-(n as int)) as nat;
        let s = int_to_str_spec(n as int);
        lemma_u64_digits_shape(m);
        lemma_digits_val_mod_round(m);
        assert(s[0] == 45);
        assert(sign_skip(s) == (true, 1int));
        assert(forall|k: int| 1 <= k < s.len() ==> is_digit(#[trigger] s[k])) by {
            assert(forall|k: int|
                1 <= k < s.len() ==> s[k] == #[trigger] u64_digits(m)[k - 1]);
        }
        lemma_digit_run_exact(s, 1, s.len() as int);
        assert(s.subrange(1, s.len() as int) =~= u64_digits(m));
        assert(wrap_neg(m) == n);
    }
}

/// The longest prefix of `s` that reads as a float: optional sign, digits
/// with an optional fraction (at least one digit in the mantissa), then an
/// optional exponent with at least one digit; 0 when no such prefix exists.
pub open spec fn float_prefix_spec(s: Seq<u8>) -> int {
    let st = sign_skip(s).1;
    let d1 = digit_run(s, st);
    let has_dot = st + d1 < s.len() && s[st + d1] == 46;
    let d2 = if has_dot {
        digit_run(s, st + d1 + 1)
    } else {
        0int
    };
    let end_mant = if has_dot {
        st + d1 + 1 + d2
    } else {
        st + d1
    };
    if d1 + d2 == 0 {
        0
    } else if end_mant < s.len() && (s[end_mant] == 101 || s[end_mant] == 69) {
        let j = if end_mant + 1 < s.len() && (s[end_mant + 1] == 43 || s[end_mant + 1]
            == 45) {
            end_mant + 2
        } else {
            end_mant + 1
        };
        let d3 = digit_run(s, j);
        if d3 > 0 {
            j + d3
        } else {
            end_mant
        }
    } else {
        end_mant
    }
}

/// The length of the run of decimal digits of `sv` starting at `i`.
fn digit_run_from(sv: &Vec<u8>, i: usize) -> (r: usize)
    requires
        i <= sv@.len(),
    ensures
        r == digit_run(sv@, i as int),
        i + r <= sv@.len(),
{
    let n: usize = sv.len();
    let mut j: usize = i;
    while j < n && sv[j] >= 48 && sv[j] <= 57
        invariant
            i <= j <= n == sv@.len(),
            forall|k: int| i <= k < j ==> is_digit(sv@[k]),
        decreases n - j,
    {
        j = j + 1;
    }
    proof {
        lemma_digit_run_exact(sv@, i as int, j as int);
    }
    j - i
}

/// The length of the longest float-shaped prefix of `s`; 0 when there is
/// none. The bytes of that prefix are handed to the host for conversion.
pub fn float_prefix(s: &Str) -> (r: usize)
    ensures
        r == float_prefix_spec(s@),
        r <= s@.len(),
{
    let sv = s.bytes();
    let n: usize = sv.len();
    let mut st: usize = 0;
    if n > 0 && (sv[0] == 45 || sv[0] == 43) {
        st = 1;
    }
    assert(st as int == sign_skip(s@).1);
    let d1 = digit_run_from(sv, st);
    let has_dot = st + d1 < n && sv[st + d1] == 46;
    let d2: usize = if has_dot {
        digit_run_from(sv, st + d1 + 1)
    } else {
        0
    };
    let end_mant: usize = if has_dot {
        st + d1 + 1 + d2
    } else {
        st + d1
    };
    if d1 + d2 == 0 {
        return 0;
    }
    if end_mant < n && (sv[end_mant] == 101 || sv[end_mant] == 69) {
        let j: usize = if end_mant + 1 < n && (sv[end_mant + 1] == 43 || sv[end_mant + 1]
            == 45) {
            end_mant + 2
        } else {
            end_mant + 1
        };
        let d3 = digit_run_from(sv, j);
        if d3 > 0 {
            j + d3
        } else {
            end_mant
        }
    } else {
        end_mant
    }
}

/// A byte that forces CSV quoting: comma, double quote, newline or carriage
/// return.
pub open spec fn is_csv_special(b: u8) -> bool {
    b == 44 || b == 34 || b == 10 || b == 13
}

/// The CSV encoding of one byte: a double quote is doubled, every other
/// byte stands as itself.
pub open spec fn csv_enc(b: u8) -> Seq<u8> {
    if b == 34 {
        seq![34u8, 34u8]
    } else {
        seq![b]
    }
}

/// The body of a CSV-escaped field: each byte through `csv_enc`.
pub open spec fn csv_body(s: Seq<u8>) -> Seq<u8>
    decreases s.len(),
{
    if s.len() == 0 {
        Seq::empty()
    } else {
        csv_body(s.drop_last()) + csv_enc(s.last())
    }
}

/// The CSV escape of a field: quoted with doubled inner quotes when the
/// field holds a comma, quote, newline or carriage return; unchanged
/// otherwise.
pub open spec fn escape_csv_spec(s: Seq<u8>) -> Seq<u8> {
    if exists|k: int| 0 <= k < s.len() && is_csv_special(s[k]) {
        seq![34u8] + csv_body(s) + seq![34u8]
    } else {
        s
    }
}

/// The TSV encoding of one byte: tab, newline and backslash become
/// backslash escapes, every other byte stands as itself.
pub open spec fn tsv_enc(b: u8) -> Seq<u8> {
    if b == 9 {
        seq![92u8, 116u8]
    } else if b == 10 {
        seq![92u8, 110u8]
    } else if b == 92 {
        seq![92u8, 92u8]
    } else {
        seq![b]
    }
}

/// The TSV escape of a field: each byte through `tsv_enc`.
pub open spec fn escape_tsv_spec(s: Seq<u8>) -> Seq<u8>
    decreases s.len(),
{
    if s.len() == 0 {
        Seq::empty()
    } else {
        escape_tsv_spec(s.drop_last()) + tsv_enc(s.last())
    }
}

/// CSV-escape a field.
pub fn escape_csv(s: &Str) -> (r: Str)
    ensures
        r@ == escape_csv_spec(s@),
{
    let sv = s.bytes();
    let n: usize = sv.len();
    let mut body: Vec<u8> = Vec::new();
    let mut special: bool = false;
    let mut i: usize = 0;
    while i < n
        invariant
            i <= n == sv@.len(),
            sv@ == s@,
            body@ == csv_body(s@.subrange(0, i as int)),
            special <==> exists|k: int| 0 <= k < i && is_csv_special(s@[k]),
        decreases n - i,
    {
        let b = sv[i];
        if b == 44 || b == 34 || b == 10 || b == 13 {
            special = true;
        }
        if b == 34 {
            body.push(34);
            body.push(34);
        } else {
            body.push(b);
        }
        proof {
            assert(s@.subrange(0, i + 1).drop_last() =~= s@.subrange(0, i as int));
            assert(s@.subrange(0, i + 1).last() == s@[i as int]);
            assert(body@ =~= csv_body(s@.subrange(0, i + 1)));
        }
        i = i + 1;
    }
    assert(s@.subrange(0, n as int) =~= s@);
    if special {
        let mut out: Vec<u8> = Vec::new();
        out.push(34);
        let mut j: usize = 0;
        while j < body.len()
            invariant
                j <= body@.len(),
                body@ == csv_body(s@),
                out@ == seq![34u8] + body@.subrange(0, j as int),
            decreases body@.len() - j,
        {
            out.push(body[j]);
            assert(out@ =~= seq![34u8] + body@.subrange(0, j + 1));
            j = j + 1;
        }
        out.push(34);
        assert(out@ =~= seq![34u8] + csv_body(s@) + seq![34u8]);
        Str::from_vec(out)
    } else {
        s.dup()
    }
}

/// TSV-escape a field.
pub fn escape_tsv(s: &Str) -> (r: Str)
    ensures
        r@ == escape_tsv_spec(s@),
{
    let sv = s.bytes();
    let n: usize = sv.len();
    let mut out: Vec<u8> = Vec::new();
    let mut i: usize = 0;
    while i < n
        invariant
            i <= n == sv@.len(),
            sv@ == s@,
            out@ == escape_tsv_spec(s@.subrange(0, i as int)),
        decreases n - i,
    {
        let b = sv[i];
        if b == 9 {
            out.push(92);
            out.push(116);
        } else if b == 10 {
            out.push(92);
            out.push(110);
        } else if b == 92 {
            out.push(92);
            out.push(92);
        } else {
            out.push(b);
        }
        proof {
            assert(s@.subrange(0, i + 1).drop_last() =~= s@.subrange(0, i as int));
            assert(s@.subrange(0, i + 1).last() == s@[i as int]);
            assert(out@ =~= escape_tsv_spec(s@.subrange(0, i + 1)));
        }
        i = i + 1;
    }
    assert(s@.subrange(0, n as int) =~= s@);
    Str::from_vec(out)
}

/// The magnitude of `v`.
pub open spec fn mag_i64(v: i64) -> nat {
    if v >= 0 {
        v as nat
    } else {
        (-(v as int)) as nat
    }
}

/// Two's-complement wrapping addition.
pub open spec fn wrap_add_spec(a: i64, b: i64) -> i64 {
    let x = a + b;
    if x > i64::MAX {
        (x - TWO64_U128) as i64
    } else if x < i64::MIN {
        (x + TWO64_U128) as i64
    } else {
        x as i64
    }
}

/// Two's-complement wrapping subtraction.
pub open spec fn wrap_sub_spec(a: i64, b: i64) -> i64 {
    let x = a - b;
    if x > i64::MAX {
        (x - TWO64_U128) as i64
    } else if x < i64::MIN {
        (x + TWO64_U128) as i64
    } else {
        x as i64
    }
}

/// Two's-complement wrapping multiplication: the low 64 bits of the
/// product, signed by the factors.
pub open spec fn wrap_mul_spec(a: i64, b: i64) -> i64 {
    let m = (mag_i64(a) * mag_i64(b)) % (TWO64_U128 as nat);
    if (a < 0) != (b < 0) {
        wrap_neg(m)
    } else {
        wrap_pos(m)
    }
}

/// Two's-complement wrapping negation: the minimum stays itself.
pub open spec fn wrap_neg_spec(a: i64) -> i64 {
    if a == i64::MIN {
        i64::MIN
    } else {
        (-(a as int)) as i64
    }
}

/// The remainder with the dividend's sign (as machine integers have it);
/// 0 for a zero divisor.
pub open spec fn rem_spec(a: i64, b: i64) -> i64 {
    if b == 0 {
        0
    } else {
        let m = mag_i64(a) % mag_i64(b);
        if a < 0 {
            (-(m as int)) as i64
        } else {
            m as i64
        }
    }
}

/// Wrapping addition.
pub fn wrap_add(a: i64, b: i64) -> (r: i64)
    ensures
        r == wrap_add_spec(a, b),
{
    let x: i128 = (a as i128) + (b as i128);
    if x > (i64::MAX as i128) {
        (x - (TWO64_U128 as i128)) as i64
    } else if x < (i64::MIN as i128) {
        (x + (TWO64_U128 as i128)) as i64
    } else {
        x as i64
    }
}

/// Wrapping subtraction.
pub fn wrap_sub(a: i64, b: i64) -> (r: i64)
    ensures
        r == wrap_sub_spec(a, b),
{
    let x: i128 = (a as i128) - (b as i128);
    if x > (i64::MAX as i128) {
        (x - (TWO64_U128 as i128)) as i64
    } else if x < (i64::MIN as i128) {
        (x + (TWO64_U128 as i128)) as i64
    } else {
        x as i64
    }
}

/// The magnitude of `v` as an unsigned word.
pub fn mag_u64(v: i64) -> (r: u64)
    ensures
        r as nat == mag_i64(v),
{
    if v >= 0 {
        v as u64
    } else {
        (-(v as i128)) as u64
    }
}

/// Wrapping multiplication.
pub fn wrap_mul(a: i64, b: i64) -> (r: i64)
    ensures
        r == wrap_mul_spec(a, b),
{
    let ma = mag_u64(a);
    let mb = mag_u64(b);
    proof {
        assert((ma as int) * (mb as int) < 0x1_0000_0000_0000_0000_0000_0000_0000_0000int)
            by (nonlinear_arith)
            requires
                (ma as int) < 0x1_0000_0000_0000_0000int,
                (mb as int) < 0x1_0000_0000_0000_0000int,
                (ma as int) >= 0,
                (mb as int) >= 0,
        ;
    }
    let p: u128 = (ma as u128) * (mb as u128);
    let m: u64 = (p % TWO64_U128) as u64;
    wrap_signed(m, (a < 0) != (b < 0))
}

/// Wrapping negation.
pub fn wrap_negate(a: i64) -> (r: i64)
    ensures
        r == wrap_neg_spec(a),
{
    if a == i64::MIN {
        i64::MIN
    } else {
        -a
    }
}

/// Remainder with the dividend's sign; 0 for a zero divisor.
pub fn rem_i64(a: i64, b: i64) -> (r: i64)
    ensures
        r == rem_spec(a, b),
{
    if b == 0 {
        return 0;
    }
    let m: u64 = mag_u64(a) % mag_u64(b);
    if a < 0 {
        -(m as i64)
    } else {
        m as i64
    }
}

} // verus!
