//! Writing one value with a format specifier, as the formatting traits of the
//! standard library do for integers, `bool`, `char` and strings: width, fill,
//! alignment, sign, `#` prefixes, zero padding, and the precision of texts.
use vstd::prelude::*;
use crate::format_spec::{Align, FormatSpec, FormatSpecView, FormatType, Sign, SubArg, SubArgView};
use crate::num::{push_digits, spec_digits};
use crate::util::{chars_of, string_of};
use crate::value::{int_max, int_min, is_signed, IntKind, TypeView, Value, ValueType, ValueView};
use vstd::arithmetic::div_mod::lemma_div_decreases;

verus! {

pub open spec fn repeat_char(c: char, n: nat) -> Seq<char> {
    Seq::new(n, |i: int| c)
}

/// `t` padded to the width of the specifier with its fill, by its alignment
/// (`default` where it sets none). A text as wide as the width or wider is
/// left as it is.
pub open spec fn spec_pad(t: Seq<char>, fs: FormatSpecView, default: Align) -> Seq<char> {
    match fs.width {
        Some(SubArgView::Value(w)) => if w > t.len() {
            let n = (w - t.len()) as nat;
            let f = match fs.fill {
                Some(c) => c,
                None => ' ',
            };
            let a = match fs.align {
                Some(a) => a,
                None => default,
            };
            match a {
                Align::Left => t + repeat_char(f, n),
                Align::Right => repeat_char(f, n) + t,
                Align::Center => repeat_char(f, n / 2) + t + repeat_char(f, (n - n / 2) as nat),
            }
        } else {
            t
        },
        _ => t,
    }
}

/// A text cut to the precision (in characters) and padded, left-aligned by
/// default.
pub open spec fn spec_pad_str(s: Seq<char>, fs: FormatSpecView) -> Seq<char> {
    let t = match fs.precision {
        Some(SubArgView::Value(p)) => if p < s.len() {
            s.take(p as int)
        } else {
            s
        },
        _ => s,
    };
    spec_pad(t, fs, Align::Left)
}

/// A number: sign (`-`, or `+` where the specifier asks for it), prefix and
/// digits, padded right-aligned by default; with `0`, zeros go between the
/// prefix and the digits instead.
pub open spec fn spec_pad_int(negative: bool, prefix: Seq<char>, digits: Seq<char>, fs: FormatSpecView) -> Seq<char> {
    let sign = if negative {
        seq!['-']
    } else if fs.sign == Some(Sign::Plus) {
        seq!['+']
    } else {
        seq![]
    };
    let body = sign + prefix + digits;
    if fs.is_zero {
        match fs.width {
            Some(SubArgView::Value(w)) => if w > body.len() {
                sign + prefix + repeat_char('0', (w - body.len()) as nat) + digits
            } else {
                body
            },
            _ => body,
        }
    } else {
        spec_pad(body, fs, Align::Right)
    }
}

/// The width and the precision are numbers or absent.
pub open spec fn direct_args(fs: FormatSpecView) -> bool {
    &&& (fs.width is None || fs.width matches Some(SubArgView::Value(_)))
    &&& (fs.precision is None || fs.precision matches Some(SubArgView::Value(_)))
}

/// `n` without its trailing decimal zeros (zero keeps its digit), and how
/// many zeros there were.
pub open spec fn spec_strip_zeros(n: nat) -> (nat, nat)
    decreases n,
{
    if n >= 10 && n % 10 == 0 {
        proof {
            lemma_div_decreases(n as int, 10);
        }
        let (m, z) = spec_strip_zeros(n / 10);
        (m, z + 1)
    } else {
        (n, 0)
    }
}

/// An integer's magnitude `n` in scientific notation, as `LowerExp` (`e`) or
/// `UpperExp` (`E`) writes integers without a precision: the significant
/// digits, with `.` after the first where there are more, then the
/// exponent (`1e1` for 10, `1.234e3` for 1234, `0e0` for 0).
pub open spec fn spec_exp_text(n: nat, upper: bool) -> Seq<char> {
    let (m, z) = spec_strip_zeros(n);
    let d = spec_digits(m, 10, false);
    let mant = if d.len() > 1 {
        seq![d[0], '.'] + d.drop_first()
    } else {
        d
    };
    mant + seq![if upper { 'E' } else { 'e' }] + spec_digits((z + d.len() - 1) as nat, 10, false)
}

/// `k` zeros.
pub open spec fn zeros(k: nat) -> Seq<char> {
    Seq::new(k, |i: int| '0')
}

/// Rounding `m` to drop its last `k` decimal digits (at least one), to the
/// nearest, and to an even last digit on a tie: the digits kept, before a
/// carry into a new digit.
pub open spec fn spec_round_digits(m: nat, k: nat) -> nat {
    let p = crate::num::pow10(k);
    let q = m / p;
    let r = m % p;
    let half = 5 * crate::num::pow10((k - 1) as nat);
    if r > half || (r == half && q % 2 == 1) {
        q + 1
    } else {
        q
    }
}

/// An integer's magnitude `n` in scientific notation with `p` digits after
/// the point, as `LowerExp` / `UpperExp` write integers with a precision:
/// without its trailing zeros, the number has `len` digits; with more room
/// than that, zeros are added; with less, it is rounded to `p + 1` digits
/// (to the nearest, ties to even), and a carry into a new digit (`9.99`
/// to `10.0`) moves the exponent up by one.
pub open spec fn spec_exp_prec_text(n: nat, p: nat, upper: bool) -> Seq<char> {
    let (m, z) = spec_strip_zeros(n);
    let d = spec_digits(m, 10, false);
    let len = d.len();
    let (digits, e): (Seq<char>, int) = if p + 1 >= len {
        (d + zeros((p + 1 - len) as nat), z + len - 1)
    } else {
        let q1 = spec_round_digits(m, (len - 1 - p) as nat);
        if q1 == crate::num::pow10(p + 1) {
            (spec_digits(crate::num::pow10(p), 10, false), z + len as int)
        } else {
            (spec_digits(q1, 10, false), z + len - 1)
        }
    };
    let mant = if p > 0 {
        seq![digits[0], '.'] + digits.drop_first()
    } else {
        seq![digits[0]]
    };
    mant + seq![if upper { 'E' } else { 'e' }] + spec_digits(e as nat, 10, false)
}

/// The text of an integer's magnitude in scientific notation, by the
/// precision of the specifier where it gives one.
pub open spec fn spec_exp_body(n: nat, fs: FormatSpecView) -> Seq<char> {
    let upper = fs.format_type == FormatType::UpperExp;
    match fs.precision {
        Some(SubArgView::Value(p)) => spec_exp_prec_text(n, p as nat, upper),
        _ => spec_exp_text(n, upper),
    }
}

/// Whether a format type writes integers in scientific notation.
pub open spec fn is_exp(t: FormatType) -> bool {
    t == FormatType::LowerExp || t == FormatType::UpperExp
}

/// The specifier is `{:?}`, with any other options: `Debug` of a text or a
/// character writes the quoted text and takes no width, fill, alignment or
/// precision.
pub open spec fn plain_debug(fs: FormatSpecView) -> bool {
    fs.format_type == FormatType::Debug
}

/// A natural number by a format type: decimal for `Display` and `Debug`,
/// else hexadecimal, octal or binary, with `0x`, `0o` or `0b` before it for
/// `#`.
pub open spec fn spec_render_natural(n: nat, fs: FormatSpecView) -> Option<Seq<char>> {
    match fs.format_type {
        FormatType::Display | FormatType::Debug => Some(spec_pad_int(false, seq![], spec_digits(n, 10, false), fs)),
        FormatType::LowerHex | FormatType::DebugLowerHex => Some(
            spec_pad_int(false, if fs.is_alternate { seq!['0', 'x'] } else { seq![] }, spec_digits(n, 16, false), fs),
        ),
        FormatType::UpperHex | FormatType::DebugUpperHex => Some(
            spec_pad_int(false, if fs.is_alternate { seq!['0', 'x'] } else { seq![] }, spec_digits(n, 16, true), fs),
        ),
        FormatType::Octal => Some(
            spec_pad_int(false, if fs.is_alternate { seq!['0', 'o'] } else { seq![] }, spec_digits(n, 8, false), fs),
        ),
        FormatType::Binary => Some(
            spec_pad_int(false, if fs.is_alternate { seq!['0', 'b'] } else { seq![] }, spec_digits(n, 2, false), fs),
        ),
        FormatType::LowerExp | FormatType::UpperExp => Some(spec_pad_int(false, seq![], spec_exp_body(n, fs), fs)),
        _ => None,
    }
}

/// Whether a format type writes integers in hexadecimal, octal or binary.
pub open spec fn is_radix(t: FormatType) -> bool {
    t == FormatType::LowerHex || t == FormatType::UpperHex || t == FormatType::DebugLowerHex
        || t == FormatType::DebugUpperHex || t == FormatType::Octal || t == FormatType::Binary
}

/// A value of the type `t` (where it is known) written with a format
/// specifier: a negative integer of a signed kind in hexadecimal, octal or
/// binary is written as its two's complement in the width of its kind
/// (`ffffffff` for `-1i32` with `{:x}`); anything else as
/// `spec_render_value` writes it.
pub open spec fn spec_render_typed(v: ValueView, t: Option<TypeView>, fs: FormatSpecView) -> Option<Seq<char>> {
    match (v, t) {
        (ValueView::Int(n), Some(TypeView::Int(k))) => if n < 0 && is_signed(k) && is_radix(fs.format_type) && direct_args(fs) {
            let m = int_max(k) - int_min(k) + 1 + n;
            if 0 <= m {
                spec_render_natural(m as nat, fs)
            } else {
                None
            }
        } else {
            spec_render_value(v, fs)
        },
        _ => spec_render_value(v, fs),
    }
}

/// The specifier with which `fmt::Pointer` of a raw pointer writes its
/// address in hexadecimal: always with `0x`; with `#`, padded with zeros to
/// the width of `0x` and all the hexadecimal digits of a `usize`, unless a
/// width is given.
pub open spec fn pointer_spec(fs: FormatSpecView) -> FormatSpecView {
    FormatSpecView {
        format_type: FormatType::LowerHex,
        is_alternate: true,
        is_zero: fs.is_zero || fs.is_alternate,
        width: if fs.is_alternate && fs.width is None {
            Some(SubArgView::Value((usize::BITS / 4 + 2) as usize))
        } else {
            fs.width
        },
        ..fs
    }
}

/// The format types with which a raw pointer is written: `{:p}`, and
/// `Debug`, which writes it as `{:p}` does.
pub open spec fn pointer_type(t: FormatType) -> bool {
    t == FormatType::Pointer || t == FormatType::Debug || t == FormatType::DebugLowerHex || t == FormatType::DebugUpperHex
}

/// The text of a value written with a format specifier; `None` where this
/// crate does not write it (see `DeriveError::Unsupported`).
pub open spec fn spec_render_value(v: ValueView, fs: FormatSpecView) -> Option<Seq<char>> {
    if !direct_args(fs) {
        None
    } else {
        match v {
            ValueView::Str(s) => if fs.format_type == FormatType::Display {
                Some(spec_pad_str(s, fs))
            } else if plain_debug(fs) {
                Some(crate::chars::str_debug_text(s))
            } else {
                None
            },
            ValueView::Char(c) => if fs.format_type == FormatType::Display {
                Some(spec_pad_str(seq![c], fs))
            } else if plain_debug(fs) {
                Some(crate::chars::char_debug_text(c))
            } else {
                None
            },
            ValueView::Bool(b) => if fs.format_type == FormatType::Display || fs.format_type == FormatType::Debug {
                Some(spec_pad_str(if b { "true"@ } else { "false"@ }, fs))
            } else {
                None
            },
            ValueView::UInt(n) => spec_render_natural(n as nat, fs),
            ValueView::Int(n) => if n >= 0 {
                spec_render_natural(n as nat, fs)
            } else if fs.format_type == FormatType::Display || fs.format_type == FormatType::Debug {
                Some(spec_pad_int(true, seq![], spec_digits((-n) as nat, 10, false), fs))
            } else if is_exp(fs.format_type) {
                Some(spec_pad_int(true, seq![], spec_exp_body((-n) as nat, fs), fs))
            } else {
                None
            },
            ValueView::Record(_) => None,
            ValueView::List(_) => None,
            ValueView::Pointer(a) => if pointer_type(fs.format_type) {
                spec_render_natural(a as nat, pointer_spec(fs))
            } else {
                None
            },
            ValueView::Opt(_) => None,
        }
    }
}

fn push_repeat(out: &mut Vec<char>, c: char, n: usize)
    ensures
        final(out)@ == old(out)@ + repeat_char(c, n as nat),
{
    let ghost o = out@;
    let mut i: usize = 0;
    while i < n
        invariant
            i <= n,
            out@ == o + repeat_char(c, i as nat),
        decreases n - i,
    {
        out.push(c);
        i += 1;
        assert(out@ =~= o + repeat_char(c, i as nat));
    }
}

pub(crate) fn append(out: &mut Vec<char>, t: &Vec<char>)
    ensures
        final(out)@ == old(out)@ + t@,
{
    let ghost o = out@;
    let mut i: usize = 0;
    while i < t.len()
        invariant
            i <= t.len(),
            out@ == o + t@.take(i as int),
        decreases t.len() - i,
    {
        out.push(t[i]);
        i += 1;
        assert(out@ =~= o + t@.take(i as int));
    }
    assert(t@.take(t@.len() as int) =~= t@);
}

fn pad(t: &Vec<char>, fs: &FormatSpec, default: Align) -> (r: Vec<char>)
    ensures
        r@ == spec_pad(t@, fs@, default),
{
    if let Some(SubArg::Value(w)) = &fs.width {
        if *w > t.len() {
            let n = *w - t.len();
            let f = match fs.fill {
                Some(c) => c,
                None => ' ',
            };
            let a = match fs.align {
                Some(a) => a,
                None => default,
            };
            let mut out: Vec<char> = Vec::new();
            match a {
                Align::Left => {
                    append(&mut out, t);
                    push_repeat(&mut out, f, n);
                },
                Align::Right => {
                    push_repeat(&mut out, f, n);
                    append(&mut out, t);
                },
                Align::Center => {
                    push_repeat(&mut out, f, n / 2);
                    append(&mut out, t);
                    push_repeat(&mut out, f, n - n / 2);
                },
            }
            assert(out@ =~= spec_pad(t@, fs@, default));
            return out;
        }
    }
    let mut out: Vec<char> = Vec::new();
    append(&mut out, t);
    assert(out@ =~= t@);
    out
}

fn pad_str(s: &Vec<char>, fs: &FormatSpec) -> (r: Vec<char>)
    ensures
        r@ == spec_pad_str(s@, fs@),
{
    let mut t: Vec<char> = Vec::new();
    let mut limit = s.len();
    if let Some(SubArg::Value(p)) = &fs.precision {
        if *p < s.len() {
            limit = *p;
        }
    }
    let mut i: usize = 0;
    while i < limit
        invariant
            i <= limit <= s.len(),
            t@ == s@.take(i as int),
        decreases limit - i,
    {
        t.push(s[i]);
        i += 1;
        assert(t@ =~= s@.take(i as int));
    }
    assert(limit == s.len() ==> s@.take(limit as int) =~= s@);
    pad(&t, fs, Align::Left)
}

fn pad_int(negative: bool, prefix: &Vec<char>, digits: &Vec<char>, fs: &FormatSpec) -> (r: Vec<char>)
    ensures
        r@ == spec_pad_int(negative, prefix@, digits@, fs@),
{
    let mut sign: Vec<char> = Vec::new();
    if negative {
        sign.push('-');
    } else if let Some(Sign::Plus) = fs.sign {
        sign.push('+');
    }
    let mut body: Vec<char> = Vec::new();
    append(&mut body, &sign);
    append(&mut body, prefix);
    append(&mut body, digits);
    let ghost sp = spec_pad_int(negative, prefix@, digits@, fs@);
    if fs.is_zero {
        if let Some(SubArg::Value(w)) = &fs.width {
            if *w > body.len() {
                let mut out: Vec<char> = Vec::new();
                append(&mut out, &sign);
                append(&mut out, prefix);
                push_repeat(&mut out, '0', *w - body.len());
                append(&mut out, digits);
                assert(sign@ =~= (if negative { seq!['-'] } else if fs@.sign == Some(Sign::Plus) { seq!['+'] } else { Seq::<char>::empty() }));
                assert(out@ =~= sp);
                return out;
            }
        }
        assert(sign@ =~= (if negative { seq!['-'] } else if fs@.sign == Some(Sign::Plus) { seq!['+'] } else { Seq::<char>::empty() }));
        assert(body@ =~= sp);
        body
    } else {
        assert(sign@ =~= (if negative { seq!['-'] } else if fs@.sign == Some(Sign::Plus) { seq!['+'] } else { Seq::<char>::empty() }));
        pad(&body, fs, Align::Right)
    }
}

fn prefix_of(fs: &FormatSpec, a: char, b: char) -> (r: Vec<char>)
    ensures
        r@ == (if fs.is_alternate { seq![a, b] } else { Seq::<char>::empty() }),
{
    let mut p: Vec<char> = Vec::new();
    if fs.is_alternate {
        p.push(a);
        p.push(b);
    }
    assert(p@ =~= (if fs.is_alternate { seq![a, b] } else { Seq::<char>::empty() }));
    p
}

/// An integer's magnitude in scientific notation.
fn exp_text(n: u128, upper: bool) -> (r: Vec<char>)
    ensures
        r@ == spec_exp_text(n as nat, upper),
{
    let mut m = n;
    let mut z: u128 = 0;
    proof {
        crate::num::lemma_digits_len_u128(n);
    }
    while m >= 10 && m % 10 == 0
        invariant
            ({
                let (a, b) = spec_strip_zeros(m as nat);
                spec_strip_zeros(n as nat) == (a, (b + z) as nat)
            }),
            z as nat + spec_digits(m as nat, 10, false).len() == spec_digits(n as nat, 10, false).len(),
            spec_digits(n as nat, 10, false).len() <= 39,
        decreases m,
    {
        proof {
            crate::num::lemma_digits_len_div(m as nat);
        }
        m = m / 10;
        z = z + 1;
    }
    proof {
        crate::num::lemma_digits_len_u128(m);
    }
    let mut d: Vec<char> = Vec::new();
    push_digits(&mut d, m, 10, false);
    assert(d@ =~= spec_digits(m as nat, 10, false));
    let mut out: Vec<char> = Vec::new();
    out.push(d[0]);
    if d.len() > 1 {
        out.push('.');
        let mut i: usize = 1;
        while i < d.len()
            invariant
                1 <= i <= d.len(),
                out@ == seq![d@[0], '.'] + d@.subrange(1, i as int),
            decreases d.len() - i,
        {
            out.push(d[i]);
            i += 1;
            assert(out@ =~= seq![d@[0], '.'] + d@.subrange(1, i as int));
        }
        assert(d@.subrange(1, d.len() as int) =~= d@.drop_first());
    } else {
        assert(out@ =~= d@);
    }
    out.push(if upper { 'E' } else { 'e' });
    let e: u128 = z + (d.len() as u128) - 1;
    let ghost before = out@;
    push_digits(&mut out, e, 10, false);
    assert(out@ =~= spec_exp_text(n as nat, upper));
    out
}

/// `10` to the power of `k`, for `k` up to 38.
fn pow10_exec(k: usize) -> (r: u128)
    requires
        k <= 38,
    ensures
        r as nat == crate::num::pow10(k as nat),
{
    proof {
        crate::num::lemma_pow10_bound(k as nat);
    }
    let mut r: u128 = 1;
    let mut i: usize = 0;
    while i < k
        invariant
            i <= k <= 38,
            r as nat == crate::num::pow10(i as nat),
        decreases k - i,
    {
        proof {
            crate::num::lemma_pow10_bound((i + 1) as nat);
        }
        r = r * 10;
        i += 1;
    }
    r
}

/// The digits of `v` with the point after the first where `p > 0`.
fn mantissa(d: &Vec<char>, p: usize) -> (r: Vec<char>)
    requires
        d.len() >= 1,
    ensures
        r@ == (if p > 0 { seq![d@[0], '.'] + d@.drop_first() } else { seq![d@[0]] }),
{
    let mut out: Vec<char> = Vec::new();
    out.push(d[0]);
    if p > 0 {
        out.push('.');
        let mut i: usize = 1;
        while i < d.len()
            invariant
                1 <= i <= d.len(),
                out@ == seq![d@[0], '.'] + d@.subrange(1, i as int),
            decreases d.len() - i,
        {
            out.push(d[i]);
            i += 1;
            assert(out@ =~= seq![d@[0], '.'] + d@.subrange(1, i as int));
        }
        assert(d@.subrange(1, d.len() as int) =~= d@.drop_first());
    } else {
        assert(out@ =~= seq![d@[0]]);
    }
    out
}

/// An integer's magnitude in scientific notation with `p` digits after the
/// point.
fn exp_prec_text(n: u128, p: usize, upper: bool) -> (r: Vec<char>)
    ensures
        r@ == spec_exp_prec_text(n as nat, p as nat, upper),
{
    let mut m = n;
    let mut z: u128 = 0;
    proof {
        crate::num::lemma_digits_len_u128(n);
    }
    while m >= 10 && m % 10 == 0
        invariant
            ({
                let (a, b) = spec_strip_zeros(m as nat);
                spec_strip_zeros(n as nat) == (a, (b + z) as nat)
            }),
            z as nat + spec_digits(m as nat, 10, false).len() == spec_digits(n as nat, 10, false).len(),
            spec_digits(n as nat, 10, false).len() <= 39,
        decreases m,
    {
        proof {
            crate::num::lemma_digits_len_div(m as nat);
        }
        m = m / 10;
        z = z + 1;
    }
    proof {
        crate::num::lemma_digits_len_u128(m);
    }
    let mut d: Vec<char> = Vec::new();
    push_digits(&mut d, m, 10, false);
    assert(d@ =~= spec_digits(m as nat, 10, false));
    let len = d.len();
    let ghost dd = d@;
    let digits: Vec<char>;
    let e: u128;
    if p >= len - 1 {
        let mut t = d;
        push_repeat(&mut t, '0', p - (len - 1));
        assert(repeat_char('0', (p - (len - 1)) as nat) =~= zeros((p as nat + 1 - len) as nat));
        digits = t;
        e = z + (len as u128) - 1;
    } else {
        let k = len - 1 - p;
        let pk = pow10_exec(k);
        proof {
            crate::num::lemma_pow10_bound(k as nat);
        }
        let half = pk / 2;
        proof {
            crate::num::lemma_pow10_half(k as nat);
        }
        let q = m / pk;
        let rem = m % pk;
        proof {
            crate::num::lemma_pow10_bound(k as nat);
        }
        assert(q <= m / 10) by (nonlinear_arith)
            requires
                q == m / pk,
                pk >= 10,
        ;
        let q1 = if rem > half || (rem == half && q % 2 == 1) {
            q + 1
        } else {
            q
        };
        assert(q1 as nat == spec_round_digits(m as nat, k as nat));
        let pp = pow10_exec(p + 1);
        if q1 == pp {
            let mut t: Vec<char> = Vec::new();
            push_digits(&mut t, pp / 10, 10, false);
            assert(pp / 10 == crate::num::pow10(p as nat)) by {
                assert(crate::num::pow10((p + 1) as nat) == 10 * crate::num::pow10(p as nat));
            }
            proof {
                crate::num::lemma_digits_len_u128(pp / 10);
            }
            assert(t@ =~= spec_digits((pp / 10) as nat, 10, false));
            digits = t;
            e = z + (len as u128);
        } else {
            let mut t: Vec<char> = Vec::new();
            push_digits(&mut t, q1, 10, false);
            proof {
                crate::num::lemma_digits_len_u128(q1);
            }
            assert(t@ =~= spec_digits(q1 as nat, 10, false));
            digits = t;
            e = z + (len as u128) - 1;
        }
    }
    let mut out = mantissa(&digits, p);
    out.push(if upper { 'E' } else { 'e' });
    push_digits(&mut out, e, 10, false);
    assert(out@ =~= spec_exp_prec_text(n as nat, p as nat, upper));
    out
}

/// An integer's magnitude in scientific notation by the specifier.
fn exp_body(n: u128, fs: &FormatSpec) -> (r: Vec<char>)
    ensures
        r@ == spec_exp_body(n as nat, fs@),
{
    let upper = fs.format_type == FormatType::UpperExp;
    match &fs.precision {
        Some(SubArg::Value(p)) => exp_prec_text(n, *p, upper),
        _ => exp_text(n, upper),
    }
}

fn render_natural(n: u128, fs: &FormatSpec) -> (r: Option<Vec<char>>)
    ensures
        match r {
            Some(t) => spec_render_natural(n as nat, fs@) == Some(t@),
            None => spec_render_natural(n as nat, fs@) is None,
        },
{
    if fs.format_type == FormatType::LowerExp || fs.format_type == FormatType::UpperExp {
        let body = exp_body(n, fs);
        let empty: Vec<char> = Vec::new();
        assert(empty@ =~= Seq::<char>::empty());
        return Some(pad_int(false, &empty, &body, fs));
    }
    let (base, upper, a, b): (u128, bool, char, char) = match fs.format_type {
        FormatType::Display | FormatType::Debug => (10, false, ' ', ' '),
        FormatType::LowerHex | FormatType::DebugLowerHex => (16, false, '0', 'x'),
        FormatType::UpperHex | FormatType::DebugUpperHex => (16, true, '0', 'x'),
        FormatType::Octal => (8, false, '0', 'o'),
        FormatType::Binary => (2, false, '0', 'b'),
        _ => {
            return None;
        },
    };
    let prefix = if base == 10 {
        Vec::new()
    } else {
        prefix_of(fs, a, b)
    };
    let mut d: Vec<char> = Vec::new();
    push_digits(&mut d, n, base, upper);
    assert(d@ =~= spec_digits(n as nat, base as nat, upper));
    assert(base == 10 ==> prefix@ =~= Seq::<char>::empty());
    Some(pad_int(false, &prefix, &d, fs))
}

fn is_plain_debug(fs: &FormatSpec) -> (r: bool)
    ensures
        r == plain_debug(fs@),
{
    fs.format_type == FormatType::Debug
}

pub(crate) fn direct(fs: &FormatSpec) -> (r: bool)
    ensures
        r == direct_args(fs@),
{
    let w = match &fs.width {
        None => true,
        Some(SubArg::Value(_)) => true,
        _ => false,
    };
    let p = match &fs.precision {
        None => true,
        Some(SubArg::Value(_)) => true,
        _ => false,
    };
    w && p
}

/// Writes a value with a format specifier; `None` where this crate does not
/// write it.
pub fn render_value(v: &Value, fs: &FormatSpec) -> (r: Option<String>)
    ensures
        match r {
            Some(t) => spec_render_value(v@, fs@) == Some(t@),
            None => spec_render_value(v@, fs@) is None,
        },
{
    if !direct(fs) {
        return None;
    }
    let out: Vec<char> = match v {
        Value::Str(s) => {
            if fs.format_type != FormatType::Display {
                if is_plain_debug(fs) {
                    return Some(crate::chars::debug_str(s.as_str()));
                }
                return None;
            }
            let c = chars_of(s.as_str());
            pad_str(&c, fs)
        },
        Value::Char(ch) => {
            if fs.format_type != FormatType::Display {
                if is_plain_debug(fs) {
                    return Some(crate::chars::debug_char(*ch));
                }
                return None;
            }
            let mut c: Vec<char> = Vec::new();
            c.push(*ch);
            assert(c@ =~= seq![*ch]);
            pad_str(&c, fs)
        },
        Value::Bool(b) => {
            if fs.format_type != FormatType::Display && fs.format_type != FormatType::Debug {
                return None;
            }
            let c = if *b {
                chars_of("true")
            } else {
                chars_of("false")
            };
            pad_str(&c, fs)
        },
        Value::UInt(n) => match render_natural(*n, fs) {
            Some(t) => t,
            None => {
                return None;
            },
        },
        Value::Int(n) => {
            if *n >= 0 {
                match render_natural(*n as u128, fs) {
                    Some(t) => t,
                    None => {
                        return None;
                    },
                }
            } else if fs.format_type == FormatType::Display || fs.format_type == FormatType::Debug {
                let m: u128 = if *n == i128::MIN {
                    0x8000_0000_0000_0000_0000_0000_0000_0000
                } else {
                    (-*n) as u128
                };
                let mut d: Vec<char> = Vec::new();
                push_digits(&mut d, m, 10, false);
                assert(d@ =~= spec_digits((-(*n as int)) as nat, 10, false));
                let empty: Vec<char> = Vec::new();
                assert(empty@ =~= Seq::<char>::empty());
                pad_int(true, &empty, &d, fs)
            } else if fs.format_type == FormatType::LowerExp || fs.format_type == FormatType::UpperExp {
                let m: u128 = if *n == i128::MIN {
                    0x8000_0000_0000_0000_0000_0000_0000_0000
                } else {
                    (-*n) as u128
                };
                assert(m as int == -(*n as int));
                let body = exp_body(m, fs);
                let empty: Vec<char> = Vec::new();
                assert(empty@ =~= Seq::<char>::empty());
                pad_int(true, &empty, &body, fs)
            } else {
                return None;
            }
        },
        Value::Record(_) => {
            return None;
        },
        Value::List(_) => {
            return None;
        },
        Value::Pointer(a) => {
            if !(fs.format_type == FormatType::Pointer || fs.format_type == FormatType::Debug
                || fs.format_type == FormatType::DebugLowerHex || fs.format_type == FormatType::DebugUpperHex) {
                return None;
            }
            let width = match &fs.width {
                Some(SubArg::Value(w)) => Some(SubArg::Value(*w)),
                _ => if fs.is_alternate {
                    Some(SubArg::Value((usize::BITS / 4 + 2) as usize))
                } else {
                    None
                },
            };
            let precision = match &fs.precision {
                Some(SubArg::Value(p)) => Some(SubArg::Value(*p)),
                _ => None,
            };
            let pfs = FormatSpec {
                fill: fs.fill,
                align: fs.align,
                sign: fs.sign,
                is_alternate: true,
                is_zero: fs.is_zero || fs.is_alternate,
                width,
                precision,
                format_type: FormatType::LowerHex,
            };
            assert(pfs@ == pointer_spec(fs@));
            match render_natural(*a as u128, &pfs) {
                Some(t) => t,
                None => {
                    return None;
                },
            }
        },
        Value::Opt(_) => {
            return None;
        },
    };
    Some(string_of(&out))
}


pub open spec fn opt_type_view(t: Option<&ValueType>) -> Option<TypeView> {
    match t {
        Some(x) => Some(x@),
        None => None,
    }
}

/// The number of values of a signed kind, less one (as a `u128`).
fn signed_span(k: IntKind) -> (r: u128)
    requires
        is_signed(k),
    ensures
        r as int == int_max(k) - int_min(k),
{
    match k {
        IntKind::I8 => 255,
        IntKind::I16 => 65535,
        IntKind::I32 => 4294967295,
        IntKind::I64 => u64::MAX as u128,
        IntKind::I128 => u128::MAX,
        IntKind::Isize => usize::MAX as u128,
        _ => 0,
    }
}

/// Writes a value of a known type with a format specifier: negative
/// integers in hexadecimal, octal or binary in two's complement.
pub fn render_typed(v: &Value, t: Option<&ValueType>, fs: &FormatSpec) -> (r: Option<String>)
    ensures
        match r {
            Some(x) => spec_render_typed(v@, opt_type_view(t), fs@) == Some(x@),
            None => spec_render_typed(v@, opt_type_view(t), fs@) is None,
        },
{
    if let (Value::Int(n), Some(ValueType::Int(k))) = (v, t) {
        let is_signed_kind = match k {
            IntKind::I8 | IntKind::I16 | IntKind::I32 | IntKind::I64 | IntKind::I128 | IntKind::Isize => true,
            _ => false,
        };
        let radix = match fs.format_type {
            FormatType::LowerHex | FormatType::UpperHex | FormatType::DebugLowerHex | FormatType::DebugUpperHex
            | FormatType::Octal | FormatType::Binary => true,
            _ => false,
        };
        if *n < 0 && is_signed_kind && radix && direct(fs) {
            let span = signed_span(*k);
            let a: u128 = (-(*n + 1)) as u128;
            if a > span {
                return None;
            }
            let m = span - a;
            assert(m as int == int_max(*k) - int_min(*k) + 1 + *n);
            return match render_natural(m, fs) {
                Some(x) => Some(string_of(&x)),
                None => None,
            };
        }
    }
    render_value(v, fs)
}

} // verus!
