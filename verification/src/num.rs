//! Writing integers in a base, and reading them back as `FromStr` of the
//! integer types does.
use vstd::prelude::*;
use vstd::arithmetic::div_mod::{lemma_div_decreases, lemma_fundamental_div_mod};
use crate::chars::char_from_ascii;
use crate::format_spec::{digits_value, is_digit};

verus! {

/// The digit for `d` (below 16); letters in upper case where `upper`.
pub open spec fn digit_char(d: nat, upper: bool) -> char {
    if d < 10 {
        ((('0' as u32) as nat + d) as u32) as char
    } else if upper {
        ((('A' as u32) as nat + (d - 10)) as u32) as char
    } else {
        ((('a' as u32) as nat + (d - 10)) as u32) as char
    }
}

/// The digits of `n` in `base` (2 to 16), most significant first, without
/// leading zeros (`0` is written `0`).
pub open spec fn spec_digits(n: nat, base: nat, upper: bool) -> Seq<char>
    decreases n,
{
    if base < 2 || n < base {
        seq![digit_char(n % 16, upper)]
    } else {
        proof {
            lemma_div_decreases(n as int, base as int);
        }
        spec_digits(n / base, base, upper).push(digit_char(n % base, upper))
    }
}

fn exec_digit_char(d: u128, upper: bool) -> (r: char)
    requires
        d < 16,
    ensures
        r == digit_char(d as nat, upper),
{
    if d < 10 {
        char_from_ascii(('0' as u32) + d as u32)
    } else if upper {
        char_from_ascii(('A' as u32) + (d - 10) as u32)
    } else {
        char_from_ascii(('a' as u32) + (d - 10) as u32)
    }
}

/// Appends the digits of `n` in `base` to `out`.
pub fn push_digits(out: &mut Vec<char>, n: u128, base: u128, upper: bool)
    requires
        2 <= base <= 16,
    ensures
        final(out)@ == old(out)@ + spec_digits(n as nat, base as nat, upper),
    decreases n,
{
    if n < base {
        out.push(exec_digit_char(n, upper));
        assert(n % 16 == n);
        assert(old(out)@.push(digit_char(n as nat, upper)) =~= old(out)@ + seq![digit_char(n as nat, upper)]);
    } else {
        proof {
            lemma_div_decreases(n as int, base as int);
        }
        push_digits(out, n / base, base, upper);
        out.push(exec_digit_char(n % base, upper));
        assert(final(out)@ =~= old(out)@ + spec_digits(n as nat, base as nat, upper));
    }
}

/// The digits of an unsigned integer in a base.
pub fn digits(n: u128, base: u128, upper: bool) -> (r: Vec<char>)
    requires
        2 <= base <= 16,
    ensures
        r@ == spec_digits(n as nat, base as nat, upper),
{
    let mut v: Vec<char> = Vec::new();
    push_digits(&mut v, n, base, upper);
    assert(v@ =~= spec_digits(n as nat, base as nat, upper));
    v
}

pub open spec fn all_digits(s: Seq<char>) -> bool {
    forall|j: int| 0 <= j < s.len() ==> is_digit(#[trigger] s[j])
}

/// The magnitude text of a number: `s` without a leading `+` (or, where
/// `signed`, `-`).
pub open spec fn unsigned_part(s: Seq<char>, signed: bool) -> Seq<char> {
    if s.len() > 0 && (s[0] == '+' || (signed && s[0] == '-')) {
        s.skip(1)
    } else {
        s
    }
}

/// What `FromStr` of an integer type with the range `[min, max]` makes of
/// `s`: an optional `+` (or, for a signed type, `-`), then one or more ASCII
/// digits whose value lies in the range.
pub open spec fn spec_parse_int(s: Seq<char>, min: int, max: int) -> Option<int> {
    let signed = min < 0;
    let d = unsigned_part(s, signed);
    let negative = signed && s.len() > 0 && s[0] == '-';
    if d.len() == 0 || !all_digits(d) {
        None
    } else {
        let v = if negative {
            -(digits_value(d, 0, d.len() as int) as int)
        } else {
            digits_value(d, 0, d.len() as int) as int
        };
        if min <= v <= max {
            Some(v)
        } else {
            None
        }
    }
}

proof fn lemma_digits_value_prefix(s: Seq<char>, t: Seq<char>, k: int)
    requires
        0 <= k <= s.len(),
    ensures
        digits_value(s + t, 0, k) == digits_value(s, 0, k),
    decreases k,
{
    if k > 0 {
        lemma_digits_value_prefix(s, t, k - 1);
        assert((s + t)[k - 1] == s[k - 1]);
    }
}

/// `10` to the power of `k`.
pub open spec fn pow10(k: nat) -> nat
    decreases k,
{
    if k == 0 {
        1
    } else {
        10 * pow10((k - 1) as nat)
    }
}

/// Removing the last decimal digit of a number of two digits or more
/// shortens its text by one.
pub proof fn lemma_digits_len_div(n: nat)
    requires
        n >= 10,
    ensures
        spec_digits(n, 10, false).len() == spec_digits(n / 10, 10, false).len() + 1,
{
}

/// A number below `10` to the power of `k` has at most `k` decimal digits.
pub proof fn lemma_digits_len_bound(n: nat, k: nat)
    requires
        k >= 1,
        n < pow10(k),
    ensures
        1 <= spec_digits(n, 10, false).len() <= k,
    decreases k,
{
    if n >= 10 {
        if k == 1 {
            assert(pow10(1) == 10 * pow10(0));
        }
        let p = pow10((k - 1) as nat);
        assert(n / 10 < p) by (nonlinear_arith)
            requires
                n < 10 * p,
        ;
        lemma_digits_len_bound(n / 10, (k - 1) as nat);
        lemma_digits_len_div(n);
    }
}

/// `10` to the power of `k` is at least `1`, at least `10` for `k >= 1`,
/// and, for `k` up to 19, at most `10` to the power of 19.
pub proof fn lemma_pow10_bound(k: nat)
    ensures
        pow10(k) >= 1,
        k >= 1 ==> pow10(k) >= 10,
        k <= 38 ==> pow10(k) <= 100000000000000000000000000000000000000,
    decreases k,
{
    if k > 0 {
        lemma_pow10_bound((k - 1) as nat);
        if k <= 38 {
            assert(pow10(38) == 100000000000000000000000000000000000000) by {
                reveal_with_fuel(pow10, 39);
            }
            lemma_pow10_mono(k, 38);
        }
    }
}

/// `10` to a power grows with the power.
pub proof fn lemma_pow10_mono(a: nat, b: nat)
    requires
        a <= b,
    ensures
        pow10(a) <= pow10(b),
    decreases b - a,
{
    if a < b {
        lemma_pow10_mono(a, (b - 1) as nat);
        assert(pow10(b) == 10 * pow10((b - 1) as nat));
    }
}

/// Half of `10` to a power of at least one is five times the next lower
/// power.
pub proof fn lemma_pow10_half(k: nat)
    requires
        k >= 1,
    ensures
        pow10(k) / 2 == 5 * pow10((k - 1) as nat),
{
    let x = pow10((k - 1) as nat);
    assert(pow10(k) == 10 * x);
    assert((10 * x) / 2 == 5 * x) by (nonlinear_arith);
}

/// A `u128` has at most thirty-nine decimal digits.
pub proof fn lemma_digits_len_u128(n: u128)
    ensures
        1 <= spec_digits(n as nat, 10, false).len() <= 39,
{
    assert(pow10(39) == 1000000000000000000000000000000000000000) by {
        reveal_with_fuel(pow10, 40);
    }
    lemma_digits_len_bound(n as nat, 39);
}

pub proof fn lemma_digits_decimal(n: nat)
    ensures
        all_digits(spec_digits(n, 10, false)),
        spec_digits(n, 10, false).len() > 0,
        digits_value(spec_digits(n, 10, false), 0, spec_digits(n, 10, false).len() as int) == n,
    decreases n,
{
    let s = spec_digits(n, 10, false);
    if n < 10 {
        assert(n % 16 == n);
        assert(s == seq![digit_char(n, false)]);
        assert(digits_value(s, 0, 0) == 0);
    } else {
        lemma_div_decreases(n as int, 10);
        lemma_digits_decimal(n / 10);
        let p = spec_digits(n / 10, 10, false);
        let c = digit_char(n % 10, false);
        assert(s == p.push(c));
        lemma_digits_value_prefix(p, seq![c], p.len() as int);
        assert(p.push(c) =~= p + seq![c]);
        lemma_fundamental_div_mod(n as int, 10);
        assert forall|j: int| 0 <= j < s.len() implies is_digit(#[trigger] s[j]) by {
            if j < p.len() {
                assert(s[j] == p[j]);
            }
        }
    }
}

/// Reading back a number written in decimal gives the number: the text of a
/// natural number in the range of an integer type parses to that number.
pub proof fn lemma_decimal_roundtrip(n: nat, min: int, max: int)
    requires
        min <= 0,
        n <= max,
    ensures
        spec_parse_int(spec_digits(n, 10, false), min, max) == Some(n as int),
{
    lemma_digits_decimal(n);
    let s = spec_digits(n, 10, false);
    assert(is_digit(s[0]));
}

} // verus!
