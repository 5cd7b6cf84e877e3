//! Formatted printing: the minimal `printf` family.
//!
//! Supported conversions: `%d %i %o %x %X %c %s %e %E %f %g %G %%`, with
//! optional width, precision and the `-`, `+`, `0`, space and `#` flags.
//! Width and precision are capped at 65535. A `%` at the very end prints
//! as a literal `%`; an unknown conversion byte prints as itself and
//! consumes no argument; a directive past the last argument formats the
//! empty string. Integer and string directives are rendered exactly by the
//! library; a float directive's body text comes from the host, and the
//! library applies width and padding to it.

use vstd::prelude::*;
use crate::convert::{
    digit_run, int_to_str_spec, is_digit, str_to_int_spec, u64_digits, TWO64_U128,
};
use crate::float::FloatVal;
use crate::str_impl::Str;

verus! {

/// An argument of `printf`/`sprintf`.
pub enum FmtArg {
    I(i64),
    F(FloatVal),
    S(Str),
}

/// The specification view of an argument: the float as its bits.
pub enum ArgV {
    I(i64),
    F(u64),
    S(Seq<u8>),
}

/// The view of one argument.
pub open spec fn arg_view(a: FmtArg) -> ArgV {
    match a {
        FmtArg::I(v) => ArgV::I(v),
        FmtArg::F(x) => ArgV::F(x.bits),
        FmtArg::S(s) => ArgV::S(s@),
    }
}

/// The views of an argument sequence.
pub open spec fn args_view(s: Seq<FmtArg>) -> Seq<ArgV> {
    s.map_values(|a: FmtArg| arg_view(a))
}

/// A `printf` flag byte: `- + 0` space `#`.
pub open spec fn is_flag(b: u8) -> bool {
    b == 45 || b == 43 || b == 48 || b == 32 || b == 35
}

/// Length of the run of flag bytes of `s` starting at `i`.
pub open spec fn flag_run(s: Seq<u8>, i: int) -> int
    decreases s.len() - i,
{
    if i < 0 || i >= s.len() || !is_flag(s[i]) {
        0
    } else {
        1 + flag_run(s, i + 1)
    }
}

/// Whether the flag byte `b` occurs in `s[i..end]`.
pub open spec fn has_flag(s: Seq<u8>, i: int, end: int, b: u8) -> bool {
    exists|k: int| i <= k < end && s[k] == b
}

/// The value of a digit sequence, capped at 65535.
pub open spec fn digits_capped(s: Seq<u8>) -> int
    decreases s.len(),
{
    if s.len() == 0 {
        0
    } else {
        let v = digits_capped(s.drop_last()) * 10 + (s.last() - 48);
        if v > 65535 {
            65535
        } else {
            v
        }
    }
}

/// One parsed conversion directive. `next` is the position after the
/// conversion byte; `conv` is 0 when the format ends inside the
/// directive.
pub ghost struct DirSpec {
    pub minus: bool,
    pub plus: bool,
    pub zero: bool,
    pub space: bool,
    pub alt: bool,
    pub width: int,
    pub has_prec: bool,
    pub prec: int,
    pub conv: u8,
    pub next: int,
}

/// Parse the directive of `fmt` that starts at `i` (just after the `%`).
pub open spec fn parse_dir(fmt: Seq<u8>, i: int) -> DirSpec {
    let fe = i + flag_run(fmt, i);
    let wl = digit_run(fmt, fe);
    let we = fe + wl;
    let has_prec = 0 <= we < fmt.len() && fmt[we] == 46;
    let pl = if has_prec {
        digit_run(fmt, we + 1)
    } else {
        0int
    };
    let pe = if has_prec {
        we + 1 + pl
    } else {
        we
    };
    let conv: u8 = if 0 <= pe < fmt.len() {
        fmt[pe]
    } else {
        0
    };
    DirSpec {
        minus: has_flag(fmt, i, fe, 45),
        plus: has_flag(fmt, i, fe, 43),
        zero: has_flag(fmt, i, fe, 48),
        space: has_flag(fmt, i, fe, 32),
        alt: has_flag(fmt, i, fe, 35),
        width: digits_capped(fmt.subrange(fe, we)),
        has_prec,
        prec: if has_prec {
            digits_capped(fmt.subrange(we + 1, pe))
        } else {
            0int
        },
        conv,
        next: pe + 1,
    }
}

/// A conversion byte the library knows.
pub open spec fn known_conv(c: u8) -> bool {
    c == 100 || c == 105 || c == 111 || c == 120 || c == 88 || c == 99 || c == 115 || c
        == 101 || c == 69 || c == 102 || c == 103 || c == 71
}

/// A float conversion byte (`e E f g G`).
pub open spec fn is_float_conv(c: u8) -> bool {
    c == 101 || c == 69 || c == 102 || c == 103 || c == 71
}

/// `n` zero bytes (none for `n <= 0`).
pub open spec fn zeros(n: int) -> Seq<u8> {
    if n <= 0 {
        Seq::empty()
    } else {
        Seq::new(n as nat, |k: int| 48u8)
    }
}

/// `n` space bytes (none for `n <= 0`).
pub open spec fn spaces(n: int) -> Seq<u8> {
    if n <= 0 {
        Seq::empty()
    } else {
        Seq::new(n as nat, |k: int| 32u8)
    }
}

/// The magnitude of `v`.
pub open spec fn mag_nat(v: i64) -> nat {
    if v >= 0 {
        v as nat
    } else {
        (-(v as int)) as nat
    }
}

/// The two's-complement unsigned value of `v`.
pub open spec fn u64_of_i64(v: i64) -> nat {
    if v >= 0 {
        v as nat
    } else {
        (v + TWO64_U128) as nat
    }
}

/// The digit byte of value `d` in a base up to 16.
pub open spec fn base_digit(d: nat, upper: bool) -> u8 {
    if d < 10 {
        (48 + d) as u8
    } else if upper {
        (55 + d) as u8
    } else {
        (87 + d) as u8
    }
}

/// The octal digits of `m`, most significant first.
pub open spec fn oct_digits(m: nat) -> Seq<u8>
    decreases m,
{
    if m < 8 {
        seq![base_digit(m, false)]
    } else {
        oct_digits(m / 8).push(base_digit(m % 8, false))
    }
}

/// The hex digits of `m`, most significant first.
pub open spec fn hex_digits(m: nat, upper: bool) -> Seq<u8>
    decreases m,
{
    if m < 16 {
        seq![base_digit(m, upper)]
    } else {
        hex_digits(m / 16, upper).push(base_digit(m % 16, upper))
    }
}

/// The digits of `m` in the directive's base.
pub open spec fn u64_base_digits(m: nat, base: nat, upper: bool) -> Seq<u8> {
    if base == 8 {
        oct_digits(m)
    } else {
        hex_digits(m, upper)
    }
}

/// The body of a signed decimal directive: sign, precision zeros, digits.
pub open spec fn int_body(d: DirSpec, v: i64) -> Seq<u8> {
    let mag = u64_digits(mag_nat(v));
    let dig = if d.has_prec && d.prec == 0 && v == 0 {
        Seq::<u8>::empty()
    } else {
        mag
    };
    let dig2 = if d.has_prec && d.prec > dig.len() {
        zeros(d.prec - dig.len()) + dig
    } else {
        dig
    };
    let sign: Seq<u8> = if v < 0 {
        seq![45u8]
    } else if d.plus {
        seq![43u8]
    } else if d.space {
        seq![32u8]
    } else {
        Seq::empty()
    };
    sign + dig2
}

/// The body of an unsigned directive over the two's-complement value:
/// alternate-form prefix, precision zeros, digits.
pub open spec fn uint_body(d: DirSpec, v: i64, base: nat, upper: bool) -> Seq<u8> {
    let m = u64_of_i64(v);
    let mag = u64_base_digits(m, base, upper);
    let dig = if d.has_prec && d.prec == 0 && m == 0 {
        Seq::<u8>::empty()
    } else {
        mag
    };
    let dig2 = if d.has_prec && d.prec > dig.len() {
        zeros(d.prec - dig.len()) + dig
    } else {
        dig
    };
    let pref: Seq<u8> = if d.alt && m != 0 {
        if base == 8 {
            seq![48u8]
        } else if upper {
            seq![48u8, 88u8]
        } else {
            seq![48u8, 120u8]
        }
    } else {
        Seq::empty()
    };
    pref + dig2
}

/// The low byte of the two's-complement value of `v`.
pub open spec fn low_byte(v: i64) -> u8 {
    (u64_of_i64(v) % 256) as u8
}

/// The unpadded text of a directive applied to an argument. A float
/// directive's body is the pre-rendered host text (always handed in as a
/// string argument).
pub open spec fn body_of(d: DirSpec, a: ArgV) -> Seq<u8> {
    if d.conv == 100 || d.conv == 105 {
        match a {
            ArgV::I(v) => int_body(d, v),
            ArgV::S(s) => int_body(d, str_to_int_spec(s)),
            ArgV::F(_) => Seq::empty(),
        }
    } else if d.conv == 111 {
        match a {
            ArgV::I(v) => uint_body(d, v, 8, false),
            ArgV::S(s) => uint_body(d, str_to_int_spec(s), 8, false),
            ArgV::F(_) => Seq::empty(),
        }
    } else if d.conv == 120 || d.conv == 88 {
        match a {
            ArgV::I(v) => uint_body(d, v, 16, d.conv == 88),
            ArgV::S(s) => uint_body(d, str_to_int_spec(s), 16, d.conv == 88),
            ArgV::F(_) => Seq::empty(),
        }
    } else if d.conv == 99 {
        match a {
            ArgV::I(v) => seq![low_byte(v)],
            ArgV::S(s) => if s.len() > 0 {
                seq![s[0]]
            } else {
                Seq::empty()
            },
            ArgV::F(_) => Seq::empty(),
        }
    } else if d.conv == 115 {
        match a {
            ArgV::S(s) => if d.has_prec && d.prec < s.len() {
                s.subrange(0, d.prec)
            } else {
                s
            },
            ArgV::I(v) => int_to_str_spec(v as int),
            ArgV::F(_) => Seq::empty(),
        }
    } else if is_float_conv(d.conv) {
        match a {
            ArgV::S(s) => s,
            _ => Seq::empty(),
        }
    } else {
        Seq::empty()
    }
}

/// The body padded to the width: left-adjusted with spaces under `-`,
/// zero-padded after a leading sign for numeric directives under `0`
/// (unless a precision was given for an integer directive), else
/// space-padded on the left.
pub open spec fn pad_body(d: DirSpec, body: Seq<u8>) -> Seq<u8> {
    if body.len() >= d.width {
        body
    } else if d.minus {
        body + spaces(d.width - body.len())
    } else if d.zero && d.conv != 115 && d.conv != 99 && !(d.has_prec && (d.conv == 100
        || d.conv == 105 || d.conv == 111 || d.conv == 120 || d.conv == 88)) {
        if body.len() > 0 && (body[0] == 45 || body[0] == 43 || body[0] == 32) {
            seq![body[0]] + zeros(d.width - body.len()) + body.subrange(
                1,
                body.len() as int,
            )
        } else {
            zeros(d.width - body.len()) + body
        }
    } else {
        spaces(d.width - body.len()) + body
    }
}

/// The full text of a directive applied to an argument.
pub open spec fn render_dir(d: DirSpec, a: ArgV) -> Seq<u8> {
    pad_body(d, body_of(d, a))
}

/// The argument at `ai`; the empty string past the end.
pub open spec fn arg_at(args: Seq<ArgV>, ai: int) -> ArgV {
    if 0 <= ai < args.len() {
        args[ai]
    } else {
        ArgV::S(Seq::empty())
    }
}

/// The rendered format from position `i` with the next argument at `ai`.
pub open spec fn render_from(fmt: Seq<u8>, args: Seq<ArgV>, i: int, ai: int) -> Seq<u8>
    decreases fmt.len() - i,
{
    if i < 0 || i >= fmt.len() {
        Seq::empty()
    } else if fmt[i] != 37 {
        seq![fmt[i]] + render_from(fmt, args, i + 1, ai)
    } else if i + 1 >= fmt.len() {
        seq![37u8]
    } else if fmt[i + 1] == 37 {
        seq![37u8] + render_from(fmt, args, i + 2, ai)
    } else {
        let d = parse_dir(fmt, i + 1);
        let nx = if d.next <= i + 1 {
            i + 2
        } else if d.next > fmt.len() {
            fmt.len() as int
        } else {
            d.next
        };
        if d.conv == 0 {
            seq![37u8]
        } else if !known_conv(d.conv) {
            seq![d.conv] + render_from(fmt, args, nx, ai)
        } else {
            render_dir(d, arg_at(args, ai)) + render_from(fmt, args, nx, ai + 1)
        }
    }
}

/// The whole rendered format.
pub open spec fn render_spec(fmt: Seq<u8>, args: Seq<ArgV>) -> Seq<u8> {
    render_from(fmt, args, 0, 0)
}

/// No directive of `fmt` from `i` on is a float conversion.
pub open spec fn no_float_dirs(fmt: Seq<u8>, i: int) -> bool
    decreases fmt.len() - i,
{
    if i < 0 || i >= fmt.len() {
        true
    } else if fmt[i] != 37 {
        no_float_dirs(fmt, i + 1)
    } else if i + 1 >= fmt.len() {
        true
    } else if fmt[i + 1] == 37 {
        no_float_dirs(fmt, i + 2)
    } else {
        let d = parse_dir(fmt, i + 1);
        let nx = if d.next <= i + 1 {
            i + 2
        } else if d.next > fmt.len() {
            fmt.len() as int
        } else {
            d.next
        };
        !is_float_conv(d.conv) && no_float_dirs(fmt, nx)
    }
}

/// No argument is a float.
pub open spec fn no_float_args(args: Seq<ArgV>) -> bool {
    forall|k: int| 0 <= k < args.len() ==> !((#[trigger] args[k]) is F)
}

} // verus!

use vstd::prelude::*;
use crate::host::FloatHost;

verus! {

/// One parsed directive, in executable form.
pub struct DirExec {
    pub minus: bool,
    pub plus: bool,
    pub zero: bool,
    pub space: bool,
    pub alt: bool,
    pub width: u32,
    pub has_prec: bool,
    pub prec: u32,
    pub conv: u8,
    pub next: usize,
}

/// The specification view of a parsed directive.
pub open spec fn dir_of(e: DirExec) -> DirSpec {
    DirSpec {
        minus: e.minus,
        plus: e.plus,
        zero: e.zero,
        space: e.space,
        alt: e.alt,
        width: e.width as int,
        has_prec: e.has_prec,
        prec: e.prec as int,
        conv: e.conv,
        next: e.next as int,
    }
}

/// A run of flags from `i` to `j` with a non-flag (or the end) at `j` pins
/// `flag_run` down.
proof fn lemma_flag_run_exact(s: Seq<u8>, i: int, j: int)
    requires
        0 <= i <= j <= s.len(),
        forall|k: int| i <= k < j ==> is_flag(s[k]),
        j == s.len() || !is_flag(s[j]),
    ensures
        flag_run(s, i) == j - i,
    decreases j - i,
{
    if i < j {
        lemma_flag_run_exact(s, i + 1, j);
    }
}

/// The capped value of a digit run starting at `i`.
fn scan_capped(fmt: &Vec<u8>, i: usize) -> (r: (u32, usize))
    requires
        i <= fmt@.len(),
    ensures
        r.1 == i + digit_run(fmt@, i as int),
        r.1 <= fmt@.len(),
        r.0 as int == digits_capped(fmt@.subrange(i as int, r.1 as int)),
{
    let n: usize = fmt.len();
    let mut j: usize = i;
    let mut w: u32 = 0;
    while j < n && fmt[j] >= 48 && fmt[j] <= 57
        invariant
            i <= j <= n == fmt@.len(),
            forall|k: int| i <= k < j ==> is_digit(fmt@[k]),
            w as int == digits_capped(fmt@.subrange(i as int, j as int)),
            w <= 65535,
        decreases n - j,
    {
        let d: u32 = (fmt[j] - 48) as u32;
        let t: u32 = w * 10 + d;
        w = if t > 65535 {
            65535
        } else {
            t
        };
        proof {
            assert(fmt@.subrange(i as int, j + 1).drop_last() =~= fmt@.subrange(
                i as int,
                j as int,
            ));
            assert(fmt@.subrange(i as int, j + 1).last() == fmt@[j as int]);
        }
        j = j + 1;
    }
    proof {
        crate::convert::lemma_digit_run_exact(fmt@, i as int, j as int);
    }
    (w, j)
}

/// Parse the directive of `fmt` that starts at `i` (just after the `%`).
fn parse_dir_exec(fmt: &Vec<u8>, i: usize) -> (r: DirExec)
    requires
        i <= fmt@.len(),
    ensures
        ({
            let d = parse_dir(fmt@, i as int);
            r.minus == d.minus && r.plus == d.plus && r.zero == d.zero && r.space == d.space
                && r.alt == d.alt && r.width as int == d.width && r.has_prec == d.has_prec
                && r.prec as int == d.prec && r.conv == d.conv && (r.conv != 0
                ==> r.next as int == d.next)
        }),
        r.next <= fmt@.len(),
    {
    let n: usize = fmt.len();
    let mut minus: bool = false;
    let mut plus: bool = false;
    let mut zero: bool = false;
    let mut space: bool = false;
    let mut alt: bool = false;
    let mut c: usize = i;
    while c < n && (fmt[c] == 45 || fmt[c] == 43 || fmt[c] == 48 || fmt[c] == 32 || fmt[c]
        == 35)
        invariant
            i <= c <= n == fmt@.len(),
            forall|k: int| i <= k < c ==> is_flag(fmt@[k]),
            minus <==> has_flag(fmt@, i as int, c as int, 45),
            plus <==> has_flag(fmt@, i as int, c as int, 43),
            zero <==> has_flag(fmt@, i as int, c as int, 48),
            space <==> has_flag(fmt@, i as int, c as int, 32),
            alt <==> has_flag(fmt@, i as int, c as int, 35),
        decreases n - c,
    {
        let b = fmt[c];
        if b == 45 {
            minus = true;
        } else if b == 43 {
            plus = true;
        } else if b == 48 {
            zero = true;
        } else if b == 32 {
            space = true;
        } else {
            alt = true;
        }
        c = c + 1;
    }
    proof {
        lemma_flag_run_exact(fmt@, i as int, c as int);
    }
    let fe: usize = c;
    let (width, we) = scan_capped(fmt, fe);
    let has_prec = we < n && fmt[we] == 46;
    let (prec, pe) = if has_prec {
        scan_capped(fmt, we + 1)
    } else {
        (0u32, we)
    };
    let conv: u8 = if pe < n {
        fmt[pe]
    } else {
        0
    };
    let nxt: usize = if pe < n {
        pe + 1
    } else {
        pe
    };
    DirExec { minus, plus, zero, space, alt, width, has_prec, prec, conv, next: nxt }
}

/// Append `n` zero bytes.
fn push_zeros(out: &mut Vec<u8>, n: usize)
    ensures
        final(out)@ == old(out)@ + zeros(n as int),
{
    let mut i: usize = 0;
    while i < n
        invariant
            i <= n,
            out@ == old(out)@ + zeros(i as int),
        decreases n - i,
    {
        out.push(48);
        assert(out@ =~= old(out)@ + zeros(i + 1));
        i = i + 1;
    }
}

/// Append `n` space bytes.
fn push_spaces(out: &mut Vec<u8>, n: usize)
    ensures
        final(out)@ == old(out)@ + spaces(n as int),
{
    let mut i: usize = 0;
    while i < n
        invariant
            i <= n,
            out@ == old(out)@ + spaces(i as int),
        decreases n - i,
    {
        out.push(32);
        assert(out@ =~= old(out)@ + spaces(i + 1));
        i = i + 1;
    }
}

/// Append all of `v`.
fn push_bytes(out: &mut Vec<u8>, v: &Vec<u8>)
    ensures
        final(out)@ == old(out)@ + v@,
{
    let n: usize = v.len();
    let mut i: usize = 0;
    while i < n
        invariant
            i <= n == v@.len(),
            out@ == old(out)@ + v@.subrange(0, i as int),
        decreases n - i,
    {
        out.push(v[i]);
        assert(out@ =~= old(out)@ + v@.subrange(0, i + 1));
        i = i + 1;
    }
    assert(out@ =~= old(out)@ + v@);
}

/// Append the octal digits of `m`.
fn push_oct_digits(v: &mut Vec<u8>, m: u64)
    ensures
        final(v)@ == old(v)@ + oct_digits(m as nat),
    decreases m,
{
    if m < 8 {
        v.push(48 + (m as u8));
        assert(v@ =~= old(v)@ + oct_digits(m as nat));
    } else {
        push_oct_digits(v, m / 8);
        v.push(48 + ((m % 8) as u8));
        assert(v@ =~= old(v)@ + oct_digits(m as nat));
    }
}

/// Append the hex digits of `m`.
fn push_hex_digits(v: &mut Vec<u8>, m: u64, upper: bool)
    ensures
        final(v)@ == old(v)@ + hex_digits(m as nat, upper),
    decreases m,
{
    if m < 16 {
        let d: u8 = m as u8;
        let b: u8 = if d < 10 {
            48 + d
        } else if upper {
            55 + d
        } else {
            87 + d
        };
        v.push(b);
        assert(v@ =~= old(v)@ + hex_digits(m as nat, upper));
    } else {
        push_hex_digits(v, m / 16, upper);
        let d: u8 = (m % 16) as u8;
        let b: u8 = if d < 10 {
            48 + d
        } else if upper {
            55 + d
        } else {
            87 + d
        };
        v.push(b);
        assert(v@ =~= old(v)@ + hex_digits(m as nat, upper));
    }
}

/// The magnitude of `v` as an unsigned value.
fn mag_of(v: i64) -> (r: u64)
    ensures
        r as nat == mag_nat(v),
{
    if v >= 0 {
        v as u64
    } else {
        (-(v as i128)) as u64
    }
}

/// The two's-complement unsigned value of `v`.
fn u64_of(v: i64) -> (r: u64)
    ensures
        r as nat == u64_of_i64(v),
{
    if v >= 0 {
        v as u64
    } else {
        ((v as i128) + (TWO64_U128 as i128)) as u64
    }
}

} // verus!

verus! {

/// Append the precision-padded digits `dig2` of an integer body.
fn push_prec_digits(out: &mut Vec<u8>, dig: &Vec<u8>, has_prec: bool, prec: u32)
    ensures
        final(out)@ == old(out)@ + (if has_prec && prec > dig@.len() {
            zeros(prec - dig@.len()) + dig@
        } else {
            dig@
        }),
{
    let dl: usize = dig.len();
    if has_prec && (prec as u128) > (dl as u128) {
        let pad: usize = (prec as usize) - dl;
        push_zeros(out, pad);
        push_bytes(out, dig);
        assert(out@ =~= old(out)@ + (zeros(prec - dig@.len()) + dig@));
    } else {
        push_bytes(out, dig);
    }
}

/// Append the unpadded body of a directive applied to an argument.
#[verifier::rlimit(100)]
#[verifier::spinoff_prover]
fn render_body(out: &mut Vec<u8>, e: &DirExec, a: &FmtArg)
    ensures
        final(out)@ == old(out)@ + body_of(dir_of(*e), arg_view(*a)),
{
    let ghost d = dir_of(*e);
    let c = e.conv;
    if c == 100 || c == 105 {
        let v: i64 = match a {
            FmtArg::I(v) => *v,
            FmtArg::S(s) => crate::convert::str_to_int(s),
            FmtArg::F(_) => {
                return ;
            },
        };
        let mut dig: Vec<u8> = Vec::new();
        if !(e.has_prec && e.prec == 0 && v == 0) {
            crate::convert::push_u64_digits(&mut dig, mag_of(v));
        }
        if v < 0 {
            out.push(45);
        } else if e.plus {
            out.push(43);
        } else if e.space {
            out.push(32);
        }
        let ghost mid = out@;
        push_prec_digits(out, &dig, e.has_prec, e.prec);
        proof {
            assert(out@ =~= old(out)@ + int_body(d, v));
        }
    } else if c == 111 || c == 120 || c == 88 {
        let v: i64 = match a {
            FmtArg::I(v) => *v,
            FmtArg::S(s) => crate::convert::str_to_int(s),
            FmtArg::F(_) => {
                return ;
            },
        };
        let m = u64_of(v);
        let mut dig: Vec<u8> = Vec::new();
        if !(e.has_prec && e.prec == 0 && m == 0) {
            if c == 111 {
                push_oct_digits(&mut dig, m);
            } else {
                push_hex_digits(&mut dig, m, c == 88);
            }
        }
        if e.alt && m != 0 {
            if c == 111 {
                out.push(48);
            } else if c == 88 {
                out.push(48);
                out.push(88);
            } else {
                out.push(48);
                out.push(120);
            }
        }
        push_prec_digits(out, &dig, e.has_prec, e.prec);
        proof {
            if c == 111 {
                assert(out@ =~= old(out)@ + uint_body(d, v, 8, false));
            } else {
                assert(out@ =~= old(out)@ + uint_body(d, v, 16, c == 88));
            }
        }
    } else if c == 99 {
        match a {
            FmtArg::I(v) => {
                let b: u8 = (u64_of(*v) % 256) as u8;
                out.push(b);
                assert(out@ =~= old(out)@ + seq![low_byte(*v)]);
            },
            FmtArg::S(s) => {
                let sb = s.bytes();
                if sb.len() > 0 {
                    out.push(sb[0]);
                    assert(out@ =~= old(out)@ + body_of(d, arg_view(*a)));
                }
            },
            FmtArg::F(_) => {},
        }
    } else if c == 115 {
        match a {
            FmtArg::S(s) => {
                let sb = s.bytes();
                let n: usize = sb.len();
                let end: usize = if e.has_prec && (e.prec as u128) < (n as u128) {
                    e.prec as usize
                } else {
                    n
                };
                let mut i: usize = 0;
                while i < end
                    invariant
                        i <= end <= n == sb@.len(),
                        out@ == old(out)@ + sb@.subrange(0, i as int),
                    decreases end - i,
                {
                    out.push(sb[i]);
                    assert(out@ =~= old(out)@ + sb@.subrange(0, i + 1));
                    i = i + 1;
                }
                proof {
                    assert(sb@.subrange(0, n as int) =~= sb@);
                    assert(out@ =~= old(out)@ + body_of(d, arg_view(*a)));
                }
            },
            FmtArg::I(v) => {
                let t = crate::convert::int_to_str(*v);
                push_bytes(out, t.bytes());
            },
            FmtArg::F(_) => {},
        }
    } else if c == 101 || c == 69 || c == 102 || c == 103 || c == 71 {
        match a {
            FmtArg::S(s) => {
                push_bytes(out, s.bytes());
            },
            _ => {},
        }
    }
}

/// Append the full (padded) text of a directive applied to an argument.
fn render_one(out: &mut Vec<u8>, e: &DirExec, a: &FmtArg)
    ensures
        final(out)@ == old(out)@ + render_dir(dir_of(*e), arg_view(*a)),
{
    let ghost d = dir_of(*e);
    let mut body: Vec<u8> = Vec::new();
    render_body(&mut body, e, a);
    let bl: usize = body.len();
    if (bl as u128) >= (e.width as u128) {
        push_bytes(out, &body);
        return ;
    }
    let pad: usize = (e.width as usize) - bl;
    if e.minus {
        push_bytes(out, &body);
        push_spaces(out, pad);
        assert(out@ =~= old(out)@ + (body@ + spaces(d.width - body@.len())));
    } else if e.zero && e.conv != 115 && e.conv != 99 && !(e.has_prec && (e.conv == 100
        || e.conv == 105 || e.conv == 111 || e.conv == 120 || e.conv == 88)) {
        if bl > 0 && (body[0] == 45 || body[0] == 43 || body[0] == 32) {
            out.push(body[0]);
            push_zeros(out, pad);
            let rest = copy_tail(&body, 1);
            push_bytes(out, &rest);
            assert(out@ =~= old(out)@ + (seq![body@[0]] + zeros(d.width - body@.len())
                + body@.subrange(1, body@.len() as int)));
        } else {
            push_zeros(out, pad);
            push_bytes(out, &body);
            assert(out@ =~= old(out)@ + (zeros(d.width - body@.len()) + body@));
        }
    } else {
        push_spaces(out, pad);
        push_bytes(out, &body);
        assert(out@ =~= old(out)@ + (spaces(d.width - body@.len()) + body@));
    }
}

/// A fresh copy of `v[a..]`.
fn copy_tail(v: &Vec<u8>, a: usize) -> (r: Vec<u8>)
    requires
        a <= v@.len(),
    ensures
        r@ == v@.subrange(a as int, v@.len() as int),
{
    let n: usize = v.len();
    let mut r: Vec<u8> = Vec::new();
    let mut i: usize = a;
    while i < n
        invariant
            a <= i <= n == v@.len(),
            r@ == v@.subrange(a as int, i as int),
        decreases n - i,
    {
        r.push(v[i]);
        assert(r@ =~= v@.subrange(a as int, i + 1));
        i = i + 1;
    }
    r
}

/// Execute one directive at `i` (where `fmt[i]` is `%` not followed by
/// another `%`): append its text and hand back the next format and
/// argument positions.
#[verifier::rlimit(100)]
fn step_dir(out: &mut Vec<u8>, fv: &Vec<u8>, i: usize, args: &Vec<FmtArg>, ai: usize) -> (st: (
    usize,
    usize,
))
    requires
        i + 1 < fv@.len(),
        fv@[i as int] == 37,
        fv@[i + 1] != 37,
        ai <= i,
    ensures
        i < st.0 <= fv@.len(),
        ai <= st.1 <= st.0,
        final(out)@.len() >= old(out)@.len(),
        final(out)@.subrange(0, old(out)@.len() as int) == old(out)@,
        render_from(fv@, args_view(args@), i as int, ai as int) == final(out)@.subrange(
            old(out)@.len() as int,
            final(out)@.len() as int,
        ) + render_from(fv@, args_view(args@), st.0 as int, st.1 as int),
{
    let n: usize = fv.len();
    let ghost av = args_view(args@);
    let na: usize = args.len();
    proof {
        assert(av.len() == na);
    }
    let e = parse_dir_exec(fv, i + 1);
    let ghost dsp = parse_dir(fv@, i + 1);
    let ghost nxs: int = if dsp.next <= i + 1 {
        i + 2
    } else if dsp.next > fv@.len() {
        fv@.len() as int
    } else {
        dsp.next
    };
    if e.conv == 0 {
        out.push(37);
        proof {
            assert(render_from(fv@, av, i as int, ai as int) == seq![37u8]);
            assert(out@.subrange(0, old(out)@.len() as int) =~= old(out)@);
            assert(out@.subrange(old(out)@.len() as int, out@.len() as int) =~= seq![37u8]);
            assert(render_from(fv@, av, n as int, ai as int) == Seq::<u8>::empty());
        }
        (n, ai)
    } else {
        let nx: usize = if e.next <= i + 1 {
            i + 2
        } else {
            e.next
        };
        proof {
            assert(nx as int == nxs);
        }
        if e.conv == 100 || e.conv == 105 || e.conv == 111 || e.conv == 120 || e.conv == 88
            || e.conv == 99 || e.conv == 115 || e.conv == 101 || e.conv == 69 || e.conv
            == 102 || e.conv == 103 || e.conv == 71 {
            proof {
                assert(dir_of(e) == dsp);
            }
            let ghost pre = out@;
            if ai < na {
                render_one(out, &e, &args[ai]);
                proof {
                    assert(arg_view(args@[ai as int]) == arg_at(av, ai as int));
                }
            } else {
                let empty_arg = FmtArg::S(Str::empty());
                render_one(out, &e, &empty_arg);
                proof {
                    assert(arg_view(empty_arg) == arg_at(av, ai as int));
                }
            }
            proof {
                assert(render_from(fv@, av, i as int, ai as int) == render_dir(
                    dsp,
                    arg_at(av, ai as int),
                ) + render_from(fv@, av, nxs, ai + 1));
                assert(out@.subrange(0, pre.len() as int) =~= pre);
                assert(out@.subrange(pre.len() as int, out@.len() as int) =~= render_dir(
                    dsp,
                    arg_at(av, ai as int),
                ));
            }
            (nx, ai + 1)
        } else {
            let ghost pre = out@;
            out.push(e.conv);
            proof {
                assert(!known_conv(dsp.conv));
                assert(render_from(fv@, av, i as int, ai as int) == seq![dsp.conv]
                    + render_from(fv@, av, nxs, ai as int));
                assert(out@.subrange(0, pre.len() as int) =~= pre);
                assert(out@.subrange(pre.len() as int, out@.len() as int) =~= seq![dsp.conv]);
            }
            (nx, ai)
        }
    }
}

/// Render the format over pre-processed arguments (no float argument
/// remains; float directives find their pre-rendered text).
#[verifier::rlimit(100)]
pub fn render_with(fmt: &Str, args: &Vec<FmtArg>) -> (r: Str)
    ensures
        r@ == render_spec(fmt@, args_view(args@)),
{
    let fv = fmt.bytes();
    let n: usize = fv.len();
    let ghost av = args_view(args@);
    let na: usize = args.len();
    let mut out: Vec<u8> = Vec::new();
    let mut i: usize = 0;
    let mut ai: usize = 0;
    proof {
        assert(av.len() == na);
    }
    while i < n
        invariant
            i <= n == fv@.len(),
            ai <= i,
            fv@ == fmt@,
            na == args@.len() == av.len(),
            av == args_view(args@),
            render_spec(fmt@, av) == out@ + render_from(fmt@, av, i as int, ai as int),
        decreases n - i,
    {
        let b = fv[i];
        if b != 37 {
            out.push(b);
            proof {
                assert(render_from(fmt@, av, i as int, ai as int) == seq![fmt@[i as int]]
                    + render_from(fmt@, av, i + 1, ai as int));
                assert(render_spec(fmt@, av) =~= out@ + render_from(fmt@, av, i + 1, ai as int));
            }
            i = i + 1;
        } else if i + 1 >= n {
            out.push(37);
            proof {
                assert(render_from(fmt@, av, i as int, ai as int) == seq![37u8]);
                assert(render_spec(fmt@, av) =~= out@ + render_from(fmt@, av, n as int, ai as int));
            }
            i = n;
        } else if fv[i + 1] == 37 {
            out.push(37);
            proof {
                assert(render_from(fmt@, av, i as int, ai as int) == seq![37u8]
                    + render_from(fmt@, av, i + 2, ai as int));
                assert(render_spec(fmt@, av) =~= out@ + render_from(fmt@, av, i + 2, ai as int));
            }
            i = i + 2;
        } else {
            let ghost pre = out@;
            let st = step_dir(&mut out, fv, i, args, ai);
            proof {
                assert(out@.subrange(0, pre.len() as int) == pre);
                let chunk = out@.subrange(pre.len() as int, out@.len() as int);
                assert(pre + chunk =~= out@);
                assert(render_spec(fmt@, av) =~= out@ + render_from(
                    fmt@,
                    av,
                    st.0 as int,
                    st.1 as int,
                ));
            }
            i = st.0;
            ai = st.1;
        }
    }
    proof {
        assert(render_from(fmt@, av, n as int, ai as int) == Seq::<u8>::empty());
        assert(render_spec(fmt@, av) =~= out@);
    }
    Str::from_vec(out)
}

} // verus!

verus! {

/// A copy of the arguments (strings share storage).
fn copy_args(args: &Vec<FmtArg>) -> (r: Vec<FmtArg>)
    ensures
        args_view(r@) == args_view(args@),
        r@.len() == args@.len(),
{
    let n: usize = args.len();
    let mut r: Vec<FmtArg> = Vec::new();
    let mut i: usize = 0;
    while i < n
        invariant
            i <= n == args@.len(),
            r@.len() == i,
            forall|k: int| 0 <= k < i ==> arg_view(#[trigger] r@[k]) == arg_view(args@[k]),
        decreases n - i,
    {
        let c: FmtArg = match &args[i] {
            FmtArg::I(v) => FmtArg::I(*v),
            FmtArg::F(x) => FmtArg::F(*x),
            FmtArg::S(s) => FmtArg::S(s.dup()),
        };
        r.push(c);
        i = i + 1;
    }
    proof {
        let va = args_view(r@);
        let vb = args_view(args@);
        assert forall|k: int| 0 <= k < va.len() implies #[trigger] va[k] == vb[k] by {
            assert(va[k] == arg_view(r@[k]));
            assert(vb[k] == arg_view(args@[k]));
        }
        assert(va =~= vb);
    }
    r
}

/// The text of a float argument under a float conversion, from the host.
fn float_text<H: FloatHost>(host: &mut H, e: &DirExec, a: &FmtArg) -> (r: Vec<u8>) {
    let x: crate::float::FloatVal = match a {
        FmtArg::F(x) => *x,
        FmtArg::I(v) => host.int_to_float(*v),
        FmtArg::S(s) => {
            let pl = crate::convert::float_prefix(s);
            if pl == 0 {
                crate::float::FloatVal::zero()
            } else {
                let sb = s.bytes();
                let mut pref: Vec<u8> = Vec::new();
                let mut i: usize = 0;
                while i < pl
                    invariant
                        i <= pl <= sb@.len(),
                    decreases pl - i,
                {
                    pref.push(sb[i]);
                    i = i + 1;
                }
                host.parse_float(&pref)
            }
        },
    };
    host.format_float_conv(e.conv, e.has_prec, e.prec as usize, e.plus, e.space, e.alt, x)
}

/// Format into a new string. Integer and string directives follow
/// [`render_spec`] exactly; each float directive's body is text the host
/// rendered, padded by the library. When no argument is a float and no
/// directive is a float conversion, the result is exactly
/// `render_spec(fmt, args)`.
pub fn sprintf<H: FloatHost>(host: &mut H, fmt: &Str, args: &Vec<FmtArg>) -> (r: Str)
    ensures
        exists|a2: Seq<ArgV>| r@ == render_spec(fmt@, a2),
        no_float_dirs(fmt@, 0) && no_float_args(args_view(args@)) ==> r@ == render_spec(
            fmt@,
            args_view(args@),
        ),
{
    let fv = fmt.bytes();
    let n: usize = fv.len();
    let na: usize = args.len();
    let mut args2 = copy_args(args);
    let ghost plain = no_float_dirs(fmt@, 0) && no_float_args(args_view(args@));
    let mut i: usize = 0;
    let mut ai: usize = 0;
    while i < n
        invariant
            i <= n == fv@.len(),
            ai <= i,
            fv@ == fmt@,
            na == args@.len() == args2@.len(),
            plain == (no_float_dirs(fmt@, 0) && no_float_args(args_view(args@))),
            no_float_dirs(fmt@, 0) ==> no_float_dirs(fmt@, i as int),
            plain ==> args_view(args2@) == args_view(args@),
        decreases n - i,
    {
        let b = fv[i];
        if b != 37 {
            i = i + 1;
        } else if i + 1 >= n {
            i = n;
        } else if fv[i + 1] == 37 {
            i = i + 2;
        } else {
            let e = parse_dir_exec(fv, i + 1);
            let ghost dsp = parse_dir(fmt@, i + 1);
            if e.conv == 0 {
                i = n;
            } else {
                let nx: usize = if e.next <= i + 1 {
                    i + 2
                } else {
                    e.next
                };
                if e.conv == 101 || e.conv == 69 || e.conv == 102 || e.conv == 103
                    || e.conv == 71 {
                    proof {
                        assert(is_float_conv(dsp.conv));
                    }
                    if ai < na {
                        let t = float_text(host, &e, &args2[ai]);
                        args2[ai] = FmtArg::S(Str::from_vec(t));
                    }
                    ai = ai + 1;
                } else if e.conv == 100 || e.conv == 105 || e.conv == 111 || e.conv == 120
                    || e.conv == 88 || e.conv == 99 || e.conv == 115 {
                    if ai < na {
                        let is_f = match &args2[ai] {
                            FmtArg::F(_) => true,
                            _ => false,
                        };
                        if is_f {
                            proof {
                                assert(args_view(args@)[ai as int] is F || !plain) by {
                                    if plain {
                                        assert(arg_view(args2@[ai as int]) == args_view(
                                            args@,
                                        )[ai as int]);
                                    }
                                }
                            }
                            let x: crate::float::FloatVal = match &args2[ai] {
                                FmtArg::F(x) => *x,
                                _ => crate::float::FloatVal::zero(),
                            };
                            if e.conv == 115 {
                                let t = host.format_float(x);
                                args2[ai] = FmtArg::S(Str::from_vec(t));
                            } else {
                                let v = host.float_to_int(x);
                                args2[ai] = FmtArg::I(v);
                            }
                        }
                    }
                    ai = ai + 1;
                }
                i = nx;
            }
        }
    }
    let out = render_with(fmt, &args2);
    proof {
        assert(out@ == render_spec(fmt@, args_view(args2@)));
    }
    out
}

} // verus!
