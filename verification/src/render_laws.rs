//! What the format specifiers do to the texts of values, stated by the
//! positions of the characters in the result.
use vstd::prelude::*;
use crate::format_spec::{Align, FormatSpecView, FormatType, Sign, SubArgView};
use crate::num::spec_digits;
use crate::render::{repeat_char, spec_render_value};
use crate::value::ValueView;
use crate::chars::{is_ascii_lower, is_ascii_upper};
use vstd::arithmetic::div_mod::{lemma_div_decreases, lemma_fundamental_div_mod};

verus! {

/// The fill character of a specifier: the one it gives, else a space.
pub open spec fn fill_of(fs: FormatSpecView) -> char {
    match fs.fill {
        Some(c) => c,
        None => ' ',
    }
}

/// Where a text starts in a field `pad` characters wider than it.
pub open spec fn start_in_field(a: Align, pad: int) -> int {
    match a {
        Align::Left => 0,
        Align::Right => pad,
        Align::Center => pad / 2,
    }
}

/// `r` is `w` characters long, holds `t` from `at` on, and the fill at
/// every other position.
pub open spec fn placed(r: Seq<char>, t: Seq<char>, w: int, at: int, fill: char) -> bool {
    &&& r.len() == w
    &&& 0 <= at && at + t.len() <= w
    &&& r.subrange(at, at + t.len()) == t
    &&& forall|i: int| 0 <= i < w && !(at <= i < at + t.len()) ==> r[i] == fill
}

/// How a text `s` is written with `fs` (as `Formatter::pad` does): cut to
/// the precision, then, where the width is larger, placed in a field of
/// that width by the alignment (to the left where none is given) and
/// filled; else as it is.
pub open spec fn text_written(r: Seq<char>, s: Seq<char>, fs: FormatSpecView) -> bool {
    let t = match fs.precision {
        Some(SubArgView::Value(p)) => if p < s.len() {
            s.take(p as int)
        } else {
            s
        },
        _ => s,
    };
    match fs.width {
        Some(SubArgView::Value(w)) => if w > t.len() {
            placed(r, t, w as int, start_in_field(match fs.align {
                Some(a) => a,
                None => Align::Left,
            }, w - t.len()), fill_of(fs))
        } else {
            r == t
        },
        _ => r == t,
    }
}

/// The base of an integer format type, whether its letters are upper case,
/// and the prefix that `#` asks for: decimal for `Display` and `Debug`,
/// `0x` and 16 for hexadecimal, `0o` and 8 for octal, `0b` and 2 for binary.
pub open spec fn int_format(t: FormatType) -> Option<(nat, bool, Seq<char>)> {
    match t {
        FormatType::Display | FormatType::Debug => Some((10nat, false, Seq::<char>::empty())),
        FormatType::LowerHex | FormatType::DebugLowerHex => Some((16nat, false, seq!['0', 'x'])),
        FormatType::UpperHex | FormatType::DebugUpperHex => Some((16nat, true, seq!['0', 'x'])),
        FormatType::Octal => Some((8nat, false, seq!['0', 'o'])),
        FormatType::Binary => Some((2nat, false, seq!['0', 'b'])),
        _ => None,
    }
}

/// How a natural number, whose digits in the base of the format type are
/// `digits`, is written with `fs` (as `Formatter::pad_integral` does): `+`
/// where asked, the prefix where `#` asks for it, the digits; with `0` and a
/// larger width, zeros between the prefix and the digits; else, where the
/// width is larger, the whole placed in a field of that width by the
/// alignment (to the right where none is given).
pub open spec fn natural_written(r: Seq<char>, digits: Seq<char>, prefix: Seq<char>, fs: FormatSpecView) -> bool {
    number_written(r, false, digits, prefix, fs)
}

/// How an integer whose magnitude has the digits `digits` is written with
/// `fs`: as `natural_written` says, with `-` in place of the sign for a
/// negative one.
pub open spec fn number_written(r: Seq<char>, negative: bool, digits: Seq<char>, prefix: Seq<char>, fs: FormatSpecView) -> bool {
    let sign = if negative {
        seq!['-']
    } else if fs.sign == Some(Sign::Plus) {
        seq!['+']
    } else {
        Seq::<char>::empty()
    };
    let p = if fs.is_alternate {
        prefix
    } else {
        Seq::<char>::empty()
    };
    let body = sign + p + digits;
    match fs.width {
        Some(SubArgView::Value(w)) => if w > body.len() {
            if fs.is_zero {
                &&& r.len() == w
                &&& r.take((sign + p).len() as int) == sign + p
                &&& r.skip(w - digits.len()) == digits
                &&& forall|i: int| (sign + p).len() <= i < w - digits.len() ==> r[i] == '0'
            } else {
                placed(r, body, w as int, start_in_field(match fs.align {
                    Some(a) => a,
                    None => Align::Right,
                }, w - body.len()), fill_of(fs))
            }
        } else {
            r == body
        },
        _ => r == body,
    }
}

proof fn lemma_placed(t: Seq<char>, f: char, n: nat, a: Align)
    ensures
        placed(
            match a {
                Align::Left => t + repeat_char(f, n),
                Align::Right => repeat_char(f, n) + t,
                Align::Center => repeat_char(f, n / 2) + t + repeat_char(f, (n - n / 2) as nat),
            },
            t,
            (t.len() + n) as int,
            start_in_field(a, n as int),
            f,
        ),
{
    match a {
        Align::Left => {
            let r = t + repeat_char(f, n);
            assert(r.subrange(0, t.len() as int) =~= t);
        },
        Align::Right => {
            let r = repeat_char(f, n) + t;
            assert(r.subrange(n as int, (n + t.len()) as int) =~= t);
        },
        Align::Center => {
            let r = repeat_char(f, n / 2) + t + repeat_char(f, (n - n / 2) as nat);
            assert(r.subrange((n / 2) as int, (n / 2 + t.len()) as int) =~= t);
        },
    }
}

proof fn lemma_text(s: Seq<char>, fs: FormatSpecView)
    requires
        crate::render::direct_args(fs),
    ensures
        text_written(crate::render::spec_pad_str(s, fs), s, fs),
{
    let t = match fs.precision {
        Some(SubArgView::Value(p)) => if p < s.len() {
            s.take(p as int)
        } else {
            s
        },
        _ => s,
    };
    match fs.width {
        Some(SubArgView::Value(w)) => if w > t.len() {
            let a = match fs.align {
                Some(a) => a,
                None => Align::Left,
            };
            lemma_placed(t, fill_of(fs), (w - t.len()) as nat, a);
        },
        _ => {},
    }
}

/// A text, a character or a boolean with `Display` is cut to the
/// precision and padded to the width with the fill: to the left of the
/// field where no alignment is given (`{:5}` of `ab` is `ab   `), to the
/// right for `>`, centred (the odd character of fill after it) for `^`.
pub proof fn law_text_padding(s: Seq<char>, c: char, b: bool, fs: FormatSpecView)
    requires
        fs.format_type == FormatType::Display,
        crate::render::direct_args(fs),
    ensures
        spec_render_value(ValueView::Str(s), fs) matches Some(r) && text_written(r, s, fs),
        spec_render_value(ValueView::Char(c), fs) matches Some(r) && text_written(r, seq![c], fs),
        spec_render_value(ValueView::Bool(b), fs) matches Some(r) && text_written(
            r,
            if b {
                "true"@
            } else {
                "false"@
            },
            fs,
        ),
{
    lemma_text(s, fs);
    lemma_text(seq![c], fs);
    lemma_text(if b { "true"@ } else { "false"@ }, fs);
}

proof fn lemma_int(negative: bool, digits: Seq<char>, prefix: Seq<char>, fs: FormatSpecView)
    requires
        crate::render::direct_args(fs),
    ensures
        number_written(
            crate::render::spec_pad_int(negative, if fs.is_alternate { prefix } else { seq![] }, digits, fs),
            negative,
            digits,
            prefix,
            fs,
        ),
{
    let sign = if negative {
        seq!['-']
    } else if fs.sign == Some(Sign::Plus) {
        seq!['+']
    } else {
        Seq::<char>::empty()
    };
    let p = if fs.is_alternate {
        prefix
    } else {
        Seq::<char>::empty()
    };
    let body = sign + p + digits;
    match fs.width {
        Some(SubArgView::Value(w)) => if w > body.len() {
            if fs.is_zero {
                let r = sign + p + repeat_char('0', (w - body.len()) as nat) + digits;
                assert(r.take((sign + p).len() as int) =~= sign + p);
                assert(r.skip(w - digits.len()) =~= digits);
            } else {
                let a = match fs.align {
                    Some(a) => a,
                    None => Align::Right,
                };
                lemma_placed(body, fill_of(fs), (w - body.len()) as nat, a);
            }
        },
        _ => {},
    }
}

/// A natural number with `Display`, `Debug`, `x`, `X`, `o` or `b` is written
/// by its digits in the base of the format type (upper-case letters for
/// `X`), after `0x`, `0o` or `0b` where `#` asks for it (`{:#o}` of 8 is
/// `0o10`), padded as `natural_written` says; a non-negative signed integer
/// is written as that natural number.
pub proof fn law_natural_number(n: u128, m: i128, fs: FormatSpecView)
    requires
        int_format(fs.format_type) is Some,
        crate::render::direct_args(fs),
        m >= 0,
    ensures
        ({
            let (base, upper, prefix) = int_format(fs.format_type)->Some_0;
            &&& spec_render_value(ValueView::UInt(n), fs) matches Some(r) && natural_written(
                r,
                spec_digits(n as nat, base, upper),
                prefix,
                fs,
            )
            &&& spec_render_value(ValueView::Int(m), fs) matches Some(r) && natural_written(
                r,
                spec_digits(m as nat, base, upper),
                prefix,
                fs,
            )
        }),
{
    let (base, upper, prefix) = int_format(fs.format_type)->Some_0;
    lemma_int(false, spec_digits(n as nat, base, upper), prefix, fs);
    lemma_int(false, spec_digits(m as nat, base, upper), prefix, fs);
}

/// A negative integer with `Display` or `Debug` is written as `-` and the
/// decimal digits of its magnitude, padded as `number_written` says (zeros
/// with `0` go after the `-`).
pub proof fn law_negative_number(m: i128, fs: FormatSpecView)
    requires
        fs.format_type == FormatType::Display || fs.format_type == FormatType::Debug,
        crate::render::direct_args(fs),
        m < 0,
    ensures
        spec_render_value(ValueView::Int(m), fs) matches Some(r) && number_written(
            r,
            true,
            spec_digits((-m) as nat, 10, false),
            Seq::<char>::empty(),
            fs,
        ),
{
    lemma_int(true, spec_digits((-m) as nat, 10, false), Seq::<char>::empty(), fs);
}


/// The value of a digit of bases up to 16 (`0`-`9`, `a`-`f`, `A`-`F`); -1
/// for any other character.
pub open spec fn digit_value(c: char) -> int {
    if '0' <= c <= '9' {
        c as int - '0' as int
    } else if 'a' <= c <= 'f' {
        c as int - 'a' as int + 10
    } else if 'A' <= c <= 'F' {
        c as int - 'A' as int + 10
    } else {
        -1
    }
}

/// The number that the digits `s` write in base `b`.
pub open spec fn radix_value(s: Seq<char>, b: nat) -> int
    decreases s.len(),
{
    if s.len() == 0 {
        0
    } else {
        radix_value(s.drop_last(), b) * b + digit_value(s.last())
    }
}

proof fn lemma_digit_char(x: nat, upper: bool)
    requires
        x < 16,
    ensures
        digit_value(crate::num::digit_char(x, upper)) == x,
        !(if upper { is_ascii_lower(crate::num::digit_char(x, upper)) } else { is_ascii_upper(crate::num::digit_char(x, upper)) }),
        x > 0 ==> crate::num::digit_char(x, upper) != '0',
{
}

/// The digits of a natural number in a base from 2 to 16 write that
/// number: each is a digit of the base (letters in the case asked for), the
/// first is no `0` unless the number is zero, which is written `0`.
pub proof fn law_digits(n: nat, b: nat, upper: bool)
    requires
        2 <= b <= 16,
    ensures
        spec_digits(n, b, upper).len() >= 1,
        radix_value(spec_digits(n, b, upper), b) == n,
        forall|i: int| 0 <= i < spec_digits(n, b, upper).len() ==> 0 <= #[trigger] digit_value(spec_digits(n, b, upper)[i]) < b,
        forall|i: int| 0 <= i < spec_digits(n, b, upper).len() ==> !(if upper {
            is_ascii_lower(#[trigger] spec_digits(n, b, upper)[i])
        } else {
            is_ascii_upper(spec_digits(n, b, upper)[i])
        }),
        n > 0 ==> spec_digits(n, b, upper)[0] != '0',
        n == 0 ==> spec_digits(n, b, upper) == seq!['0'],
    decreases n,
{
    let d = spec_digits(n, b, upper);
    if n < b {
        assert(n % 16 == n);
        lemma_digit_char(n, upper);
        assert(d.drop_last() =~= Seq::<char>::empty());
        assert(radix_value(d, b) == radix_value(d.drop_last(), b) * b + digit_value(d.last()));
        assert(radix_value(Seq::<char>::empty(), b) * b == 0);
    } else {
        lemma_div_decreases(n as int, b as int);
        law_digits(n / b, b, upper);
        lemma_fundamental_div_mod(n as int, b as int);
        let p = spec_digits(n / b, b, upper);
        lemma_digit_char(n % b, upper);
        assert(d == p.push(crate::num::digit_char(n % b, upper)));
        assert(d.drop_last() =~= p);
        assert(d[0] == p[0]);
        assert(radix_value(d, b) == radix_value(p, b) * b + digit_value(d.last()));
        assert(radix_value(p, b) * b == (n / b) as int * b as int);
        assert((n / b) as int * b as int == b as int * (n / b) as int) by (nonlinear_arith);
        assert(n as int == b as int * (n / b) as int + (n % b) as int);
        assert(digit_value(d.last()) == (n % b) as int);
        assert(radix_value(d, b) == n);
        assert forall|i: int| 0 <= i < d.len() implies 0 <= #[trigger] digit_value(d[i]) < b by {
            if i < p.len() {
                assert(d[i] == p[i]);
            }
        }
        assert forall|i: int| 0 <= i < d.len() implies !(if upper {
            is_ascii_lower(#[trigger] d[i])
        } else {
            is_ascii_upper(d[i])
        }) by {
            if i < p.len() {
                assert(d[i] == p[i]);
            }
        }
    }
}

} // verus!
