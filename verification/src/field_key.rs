//! Names of fields in formats and regular expressions: `a`, `r#fn`, `0`, and
//! paths of them such as `a.b.0`.
use vstd::prelude::*;
use crate::format_spec::{digits_value, is_digit};
use crate::num::{all_digits, digits, spec_digits, spec_parse_int, unsigned_part};
use crate::util::{chars_of, push_chars, push_str, string_of, substring};

verus! {

/// A field of a struct or a variant: by name, or by position in a tuple.
#[derive(Debug, PartialEq, Eq, Clone)]
pub enum FieldKey {
    Named(String),
    Unnamed(usize),
}

pub enum KeyView {
    Named(Seq<char>),
    Unnamed(usize),
}

impl View for FieldKey {
    type V = KeyView;

    open spec fn view(&self) -> KeyView {
        match self {
            FieldKey::Named(s) => KeyView::Named(s@),
            FieldKey::Unnamed(i) => KeyView::Unnamed(*i),
        }
    }
}

pub open spec fn keys_view(v: Seq<FieldKey>) -> Seq<KeyView> {
    v.map_values(|k: FieldKey| k@)
}

/// `s` without a leading `r#`.
pub open spec fn spec_trim_raw(s: Seq<char>) -> Seq<char> {
    if s.len() >= 2 && s[0] == 'r' && s[1] == '#' {
        s.skip(2)
    } else {
        s
    }
}

/// The key that a name stands for: an index where it parses as `usize`,
/// else the name without a leading `r#`.
pub open spec fn spec_key_of(s: Seq<char>) -> KeyView {
    match spec_parse_int(s, 0, usize::MAX as int) {
        Some(i) => KeyView::Unnamed(i as usize),
        None => KeyView::Named(spec_trim_raw(s)),
    }
}

/// The first index at or after `i` that holds `.` (or `s.len()`).
pub open spec fn scan_dot(s: Seq<char>, i: int) -> int
    decreases s.len() - i,
{
    if i < 0 || i >= s.len() || s[i] == '.' {
        i
    } else {
        scan_dot(s, i + 1)
    }
}

pub proof fn lemma_scan_dot(s: Seq<char>, i: int)
    requires
        0 <= i <= s.len(),
    ensures
        i <= scan_dot(s, i) <= s.len(),
        scan_dot(s, i) < s.len() ==> s[scan_dot(s, i)] == '.',
        forall|j: int| i <= j < scan_dot(s, i) ==> s[j] != '.',
    decreases s.len() - i,
{
    if i < s.len() && s[i] != '.' {
        lemma_scan_dot(s, i + 1);
    }
}

/// The pieces of `s` between dots.
pub open spec fn spec_split_dots(s: Seq<char>) -> Seq<Seq<char>>
    decreases s.len(),
{
    let i = scan_dot(s, 0);
    proof {
        lemma_scan_dot(s, 0);
    }
    if i >= s.len() {
        seq![s]
    } else {
        seq![s.take(i)] + spec_split_dots(s.skip(i + 1))
    }
}

/// The pieces joined with dots.
pub open spec fn spec_join_dots(p: Seq<Seq<char>>) -> Seq<char>
    decreases p.len(),
{
    if p.len() == 0 {
        seq![]
    } else if p.len() == 1 {
        p[0]
    } else {
        p[0] + seq!['.'] + spec_join_dots(p.drop_first())
    }
}

/// The keys of a path such as `a.b.0`; none for the empty path.
pub open spec fn spec_keys_of_path(s: Seq<char>) -> Seq<KeyView> {
    if s.len() == 0 {
        seq![]
    } else {
        spec_split_dots(s).map_values(|p: Seq<char>| spec_key_of(p))
    }
}

/// Splitting a path at its dots and joining the pieces with dots gives the
/// path back.
pub proof fn lemma_split_join_dots(s: Seq<char>)
    ensures
        spec_join_dots(spec_split_dots(s)) == s,
        spec_split_dots(s).len() >= 1,
    decreases s.len(),
{
    lemma_scan_dot(s, 0);
    let i = scan_dot(s, 0);
    if i < s.len() {
        lemma_split_join_dots(s.skip(i + 1));
        let p = spec_split_dots(s);
        assert(p.drop_first() =~= spec_split_dots(s.skip(i + 1)));
        assert(s.take(i) + seq!['.'] + s.skip(i + 1) =~= s);
    }
}

/// The text of `s` without a leading `r#`.
pub fn trim_raw(s: &str) -> (r: String)
    ensures
        r@ == spec_trim_raw(s@),
{
    let c = chars_of(s);
    if c.len() >= 2 && c[0] == 'r' && c[1] == '#' {
        let r = substring(&c, 2, c.len());
        assert(c@.subrange(2, c@.len() as int) =~= c@.skip(2));
        r
    } else {
        string_of(&c)
    }
}

/// Parses an integer of the range `[min, max]` as `FromStr` of an integer
/// type does.
pub fn parse_int_chars(c: &Vec<char>, min: i128, max: i128) -> (r: Option<i128>)
    requires
        min <= 0 <= max,
        -0x1_0000_0000_0000_0000 <= min,
        max <= 0x1_0000_0000_0000_0000,
    ensures
        match r {
            Some(v) => spec_parse_int(c@, min as int, max as int) == Some(v as int),
            None => spec_parse_int(c@, min as int, max as int) is None,
        },
{
    let ghost signed = min < 0;
    let ghost d = unsigned_part(c@, signed);
    let mut start: usize = 0;
    let mut negative = false;
    if c.len() > 0 && (c[0] == '+' || (min < 0 && c[0] == '-')) {
        start = 1;
        negative = c[0] == '-';
    }
    assert(d =~= c@.skip(start as int));
    if start >= c.len() {
        return None;
    }
    let mut acc: i128 = 0;
    let mut i = start;
    while i < c.len()
        invariant
            start <= i <= c.len(),
            d =~= c@.skip(start as int),
            d == unsigned_part(c@, (min as int) < 0),
            min <= 0 <= max,
            -0x1_0000_0000_0000_0000 <= min,
            max <= 0x1_0000_0000_0000_0000,
            negative == ((min as int) < 0 && c@.len() > 0 && c@[0] == '-'),
            0 <= acc <= 0x1_0000_0000_0000_0000,
            acc == digits_value(d, 0, (i - start) as int),
            forall|j: int| start <= j < i ==> is_digit(#[trigger] c@[j]),
        decreases c.len() - i,
    {
        let ch = c[i];
        if !('0' <= ch && ch <= '9') {
            assert(!is_digit(d[i - start]));
            assert(!all_digits(d));
            return None;
        }
        let v = (ch as u32 - '0' as u32) as i128;
        assert(d[i - start] == ch);
        assert(d.take((i - start + 1) as int) == d.take((i - start) as int).push(ch));
        let next = acc * 10 + v;
        assert(next == digits_value(d, 0, (i - start + 1) as int));
        if next > 0x1_0000_0000_0000_0000 {
            proof {
                assert forall|j: int| 0 <= j < i - start + 1 implies is_digit(#[trigger] d[j]) by {
                    assert(d[j] == c@[start + j]);
                }
                if all_digits(d) {
                    crate::format_spec::lemma_digits_value_grows(d, 0, d.len() as int);
                    assert(d.len() == c.len() - start);
                    assert(digits_value(d, 0, (i - start + 1) as int) <= digits_value(d, 0, d.len() as int));
                    assert(digits_value(d, 0, d.len() as int) > 0x1_0000_0000_0000_0000);
                    assert(d.len() > 0);
                    let vv = if negative { -(digits_value(d, 0, d.len() as int) as int) } else { digits_value(d, 0, d.len() as int) as int };
                    assert(!((min as int) <= vv <= (max as int)));
                }
                assert(spec_parse_int(c@, min as int, max as int) is None);
            }
            return None;
        }
        acc = next;
        i += 1;
    }
    assert(all_digits(d)) by {
        assert forall|j: int| 0 <= j < d.len() implies is_digit(#[trigger] d[j]) by {
            assert(d[j] == c@[start + j]);
        }
    }
    assert(d.len() == c.len() - start);
    let v = if negative { -acc } else { acc };
    if min <= v && v <= max {
        Some(v)
    } else {
        None
    }
}

/// Parses an integer of the range `[-min, max]` as `FromStr` of an integer
/// type does: whether it is negative, and its magnitude.
pub fn parse_int_wide(c: &Vec<char>, min: u128, max: u128) -> (r: Option<(bool, u128)>)
    ensures
        match r {
            Some((negative, m)) => spec_parse_int(c@, -(min as int), max as int) == Some(
                if negative {
                    -(m as int)
                } else {
                    m as int
                },
            ),
            None => spec_parse_int(c@, -(min as int), max as int) is None,
        },
{
    let ghost lo = -(min as int);
    let ghost d = unsigned_part(c@, lo < 0);
    let mut start: usize = 0;
    let mut negative = false;
    if c.len() > 0 && (c[0] == '+' || (min > 0 && c[0] == '-')) {
        start = 1;
        negative = c[0] == '-';
    }
    assert(d =~= c@.skip(start as int));
    if start >= c.len() {
        return None;
    }
    let bound: u128 = if negative {
        min
    } else {
        max
    };
    let mut acc: u128 = 0;
    let mut i = start;
    while i < c.len()
        invariant
            start < c.len(),
            start <= i <= c.len(),
            d =~= c@.skip(start as int),
            lo == -(min as int),
            d == unsigned_part(c@, lo < 0),
            negative == (lo < 0 && c@.len() > 0 && c@[0] == '-'),
            bound == (if negative { min } else { max }),
            acc <= bound,
            acc == digits_value(d, 0, (i - start) as int),
            forall|j: int| start <= j < i ==> is_digit(#[trigger] c@[j]),
        decreases c.len() - i,
    {
        let ch = c[i];
        if !('0' <= ch && ch <= '9') {
            assert(!is_digit(d[i - start]));
            assert(!all_digits(d));
            return None;
        }
        let v = (ch as u32 - '0' as u32) as u128;
        assert(d[i - start] == ch);
        assert(d.take((i - start + 1) as int) == d.take((i - start) as int).push(ch));
        assert(digits_value(d, 0, (i - start + 1) as int) == acc * 10 + v);
        if acc > bound / 10 || (acc == bound / 10 && v > bound % 10) {
            assert(acc * 10 + v > bound) by (nonlinear_arith)
                requires
                    acc > bound / 10 || (acc == bound / 10 && v > bound % 10),
                    v < 10,
            ;
            proof {
                assert forall|j: int| 0 <= j < i - start + 1 implies is_digit(#[trigger] d[j]) by {
                    assert(d[j] == c@[start + j]);
                }
                if all_digits(d) {
                    crate::format_spec::lemma_digits_value_grows(d, 0, d.len() as int);
                    assert(d.len() == c.len() - start);
                    assert(digits_value(d, 0, (i - start + 1) as int) <= digits_value(d, 0, d.len() as int));
                    assert(digits_value(d, 0, d.len() as int) > bound);
                }
                assert(spec_parse_int(c@, lo, max as int) is None);
            }
            return None;
        }
        assert(acc * 10 + v <= bound) by (nonlinear_arith)
            requires
                !(acc > bound / 10 || (acc == bound / 10 && v > bound % 10)),
                v < 10,
        ;
        acc = acc * 10 + v;
        i += 1;
    }
    assert(all_digits(d)) by {
        assert forall|j: int| 0 <= j < d.len() implies is_digit(#[trigger] d[j]) by {
            assert(d[j] == c@[start + j]);
        }
    }
    assert(d.len() == c.len() - start);
    Some((negative, acc))
}

impl FieldKey {
    /// The key that a name stands for: `Unnamed` where it parses as `usize`,
    /// else `Named` without a leading `r#`.
    pub fn from_str(s: &str) -> (r: FieldKey)
        ensures
            r@ == spec_key_of(s@),
    {
        let c = chars_of(s);
        match parse_int_chars(&c, 0, usize::MAX as i128) {
            Some(v) => FieldKey::Unnamed(v as usize),
            None => FieldKey::Named(trim_raw(s)),
        }
    }

    /// The key of a field declared with the identifier `ident`.
    pub fn from_ident(ident: &str) -> (r: FieldKey)
        ensures
            r@ == spec_key_of(ident@),
    {
        FieldKey::from_str(ident)
    }

    /// The keys of a path such as `a.b.0`; none for the empty path.
    pub fn from_str_deep(s: &str) -> (r: Vec<FieldKey>)
        ensures
            keys_view(r@) == spec_keys_of_path(s@),
    {
        let c = chars_of(s);
        let mut out: Vec<FieldKey> = Vec::new();
        if c.len() == 0 {
            assert(keys_view(out@) =~= spec_keys_of_path(s@));
            return out;
        }
        let mut i: usize = 0;
        assert(c@.skip(0) =~= c@);
        let ghost total = spec_split_dots(c@).map_values(|p: Seq<char>| spec_key_of(p));
        loop
            invariant
                i <= c.len(),
                c@ == s@,
                c.len() > 0,
                total == spec_split_dots(c@).map_values(|p: Seq<char>| spec_key_of(p)),
                total =~= keys_view(out@) + spec_split_dots(c@.skip(i as int)).map_values(
                    |p: Seq<char>| spec_key_of(p),
                ),
            decreases c.len() - i,
        {
            let ghost t = c@.skip(i as int);
            let mut j = i;
            while j < c.len() && c[j] != '.'
                invariant
                    i <= j <= c.len(),
                    scan_dot(t, 0) == scan_dot(t, (j - i) as int),
                    t == c@.skip(i as int),
                decreases c.len() - j,
            {
                j += 1;
            }
            proof {
                lemma_scan_dot(t, 0);
            }
            let piece = substring(&c, i, j);
            assert(piece@ =~= t.take((j - i) as int));
            let key = FieldKey::from_str(piece.as_str());
            let ghost before = keys_view(out@);
            out.push(key);
            assert(keys_view(out@) =~= before.push(spec_key_of(t.take((j - i) as int))));
            if j >= c.len() {
                assert(spec_split_dots(t) =~= seq![t]);
                assert(t.take((j - i) as int) =~= t);
                return out;
            }
            assert(t.skip((j - i) + 1) =~= c@.skip(j + 1));
            assert(spec_split_dots(t) =~= seq![t.take((j - i) as int)] + spec_split_dots(
                c@.skip(j + 1),
            ));
            i = j + 1;
        }
    }

    /// A copy of the key.
    pub fn copy(&self) -> (r: FieldKey)
        ensures
            r@ == self@,
    {
        match self {
            FieldKey::Named(s) => FieldKey::Named(s.clone()),
            FieldKey::Unnamed(i) => FieldKey::Unnamed(*i),
        }
    }

    /// The text of the key: the name, or the index in decimal.
    pub fn to_string(&self) -> (r: String)
        ensures
            r@ == spec_key_text(self@),
    {
        match self {
            FieldKey::Named(s) => s.clone(),
            FieldKey::Unnamed(i) => {
                let d = digits(*i as u128, 10, false);
                string_of(&d)
            },
        }
    }
}

/// The text of a key: the name, or the index in decimal.
pub open spec fn spec_key_text(k: KeyView) -> Seq<char> {
    match k {
        KeyView::Named(s) => s,
        KeyView::Unnamed(i) => spec_digits(i as nat, 10, false),
    }
}

/// Whether two keys are the same.
pub fn key_eq(a: &FieldKey, b: &FieldKey) -> (r: bool)
    ensures
        r == (a@ == b@),
{
    match (a, b) {
        (FieldKey::Named(x), FieldKey::Named(y)) => crate::util::str_eq(x.as_str(), y.as_str()),
        (FieldKey::Unnamed(x), FieldKey::Unnamed(y)) => *x == *y,
        _ => false,
    }
}

/// The texts of keys joined with a separator.
pub open spec fn spec_join_keys(k: Seq<KeyView>, sep: Seq<char>) -> Seq<char>
    decreases k.len(),
{
    if k.len() == 0 {
        seq![]
    } else if k.len() == 1 {
        spec_key_text(k[0])
    } else {
        spec_join_keys(k.drop_last(), sep) + sep + spec_key_text(k.last())
    }
}

/// The texts of the keys, joined with `sep`.
pub fn join(keys: &Vec<FieldKey>, sep: &str) -> (r: String)
    ensures
        r@ == spec_join_keys(keys_view(keys@), sep@),
{
    let mut out = String::new();
    let mut i: usize = 0;
    while i < keys.len()
        invariant
            i <= keys.len(),
            out@ == spec_join_keys(keys_view(keys@.take(i as int)), sep@),
        decreases keys.len() - i,
    {
        if i > 0 {
            push_str(&mut out, sep);
        }
        let t = keys[i].to_string();
        let tc = chars_of(t.as_str());
        push_chars(&mut out, &tc);
        proof {
            assert(keys_view(keys@.take(i + 1)).drop_last() =~= keys_view(keys@.take(i as int)));
            assert(keys_view(keys@.take(i + 1)).last() == keys@[i as int]@);
            if i == 0 {
                assert(keys_view(keys@.take(0)) =~= Seq::<KeyView>::empty());
            }
        }
        i += 1;
    }
    assert(keys@.take(keys.len() as int) =~= keys@);
    out
}

/// The name of the capture group of a field: `value_{idx}`.
pub open spec fn spec_capture_name(idx: usize) -> Seq<char> {
    "value_"@ + spec_digits(idx as nat, 10, false)
}

/// The name of the capture group with index `idx`.
pub fn capture_name(idx: usize) -> (r: String)
    ensures
        r@ == spec_capture_name(idx),
{
    let mut s = String::new();
    push_str(&mut s, "value_");
    let d = digits(idx as u128, 10, false);
    push_chars(&mut s, &d);
    s
}

} // verus!
