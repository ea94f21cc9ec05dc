//! Formats of values that stand beside `Display` and `FromStr` of their
//! types: `Fmt` (the type's own), `Join` (items with a delimiter between
//! them), `RegexInfer` (the type's own, with the regular expression of its
//! texts), and the regular expressions of the texts of the field types.
use vstd::prelude::*;
use crate::error::ParseError;
use crate::format_spec::{FormatSpec, FormatSpecView, FormatType};
use crate::render::{render_value, spec_render_value};
use crate::util::{chars_of, push_chars, push_str, string_of};
use crate::value::{is_signed, values_view, TypeView, Value, ValueType, ValueView, spec_parse_value};

verus! {

/// The format specifier `{}`.
pub open spec fn plain_spec() -> FormatSpecView {
    FormatSpecView {
        fill: None,
        align: None,
        sign: None,
        is_alternate: false,
        is_zero: false,
        width: None,
        precision: None,
        format_type: FormatType::Display,
    }
}

fn plain_format_spec() -> (r: FormatSpec)
    ensures
        r@ == plain_spec(),
{
    FormatSpec {
        fill: None,
        align: None,
        sign: None,
        is_alternate: false,
        is_zero: false,
        width: None,
        precision: None,
        format_type: FormatType::Display,
    }
}

/// What `Display` of a value writes; `None` for a record or a list, which have none.
pub open spec fn spec_display_text(v: ValueView) -> Option<Seq<char>> {
    spec_render_value(v, plain_spec())
}

pub open spec fn opt_string_view(o: Option<String>) -> Option<Seq<char>> {
    match o {
        Some(s) => Some(s@),
        None => None,
    }
}

/// A format that parses texts into values of a type.
pub trait FromStrFormat {
    /// What the format makes of `s` as a value of the type `ty`.
    spec fn parse_spec(&self, ty: TypeView, s: Seq<char>) -> Option<ValueView>;

    /// The regular expression of the texts that the format may parse as
    /// values of `ty`; `None` for any text.
    spec fn regex_spec(&self, ty: TypeView) -> Option<Seq<char>>;

    /// Parses `s` as a value of the type `ty`.
    fn parse(&self, ty: &ValueType, s: &str) -> (r: Result<Value, ParseError>)
        ensures
            match r {
                Ok(v) => self.parse_spec(ty@, s@) == Some(v@),
                Err(_) => self.parse_spec(ty@, s@) is None,
            },
    ;

    /// The regular expression of the texts that the format may parse.
    fn regex(&self, ty: &ValueType) -> (r: Option<String>)
        ensures
            opt_string_view(r) == self.regex_spec(ty@),
    ;
}

/// The format of a type's own `Display` and `FromStr`.
pub struct Fmt;

/// The format of a type's own `Display` and `FromStr`.
pub fn fmt() -> (r: Fmt) {
    Fmt
}

impl Fmt {
    /// What `Display` of the value writes; `None` for a record or a list.
    pub fn write(&self, v: &Value) -> (r: Option<String>)
        ensures
            opt_string_view(r) == spec_display_text(v@),
    {
        let fs = plain_format_spec();
        render_value(v, &fs)
    }
}

impl FromStrFormat for Fmt {
    open spec fn parse_spec(&self, ty: TypeView, s: Seq<char>) -> Option<ValueView> {
        spec_parse_value(ty, s)
    }

    open spec fn regex_spec(&self, ty: TypeView) -> Option<Seq<char>> {
        None
    }

    fn parse(&self, ty: &ValueType, s: &str) -> (r: Result<Value, ParseError>) {
        match ty.parse(s) {
            Some(v) => Ok(v),
            None => Err(ParseError::new()),
        }
    }

    fn regex(&self, ty: &ValueType) -> (r: Option<String>) {
        None
    }
}

/// A format whose parsing is a function given by the caller.
pub struct FnFromStr<F> {
    pub f: F,
}

/// The format that parses a text by calling `f` on it.
pub fn fmt_from_str<F>(f: F) -> (r: FnFromStr<F>)
    ensures
        r.f == f,
{
    FnFromStr { f }
}

impl<F> FnFromStr<F> {
    /// Parses `s` by the function of the format: its result is what the
    /// function returns for `s`.
    pub fn parse<T, E>(&self, s: &str) -> (r: Result<T, E>)
        where
            F: Fn(&str) -> Result<T, E>,
        requires
            self.f.requires((s,)),
        ensures
            self.f.ensures((s,), r),
    {
        (self.f)(s)
    }
}

/// The regular expression of any text, shortest first.
pub fn regex_any() -> (r: String)
    ensures
        r@ == "(?s:.*?)"@,
{
    let mut s = String::new();
    push_str(&mut s, "(?s:.*?)");
    s
}

/// The regular expression of the texts of unsigned integers.
pub fn regex_uint() -> (r: String)
    ensures
        r@ == "[0-9]+"@,
{
    let mut s = String::new();
    push_str(&mut s, "[0-9]+");
    s
}

/// The regular expression of the texts of signed integers.
pub fn regex_sint() -> (r: String)
    ensures
        r@ == "-?[0-9]+"@,
{
    let mut s = String::new();
    push_str(&mut s, "-?[0-9]+");
    s
}

/// The regular expression of the texts of floating-point numbers.
pub fn regex_f() -> (r: String)
    ensures
        r@ == "(?i:[+-]?([0-9]+\\.?|[0-9]*\\.[0-9]+)(e[+-]?[0-9]+)?|[+-]?inf|nan)"@,
{
    let mut s = String::new();
    push_str(&mut s, "(?i:[+-]?([0-9]+\\.?|[0-9]*\\.[0-9]+)(e[+-]?[0-9]+)?|[+-]?inf|nan)");
    s
}

/// The regular expression of the texts of a type that `FromStr` may parse:
/// one character, any text, `true|false`, or digits with a `-` for signed
/// integers; records and lists have none.
pub open spec fn spec_from_str_regex(t: TypeView) -> Option<Seq<char>> {
    match t {
        TypeView::Char => Some("(?s:.)"@),
        TypeView::Str => Some("(?s:.*?)"@),
        TypeView::Bool => Some("true|false"@),
        TypeView::Int(k) => Some(
            if is_signed(k) {
                "-?[0-9]+"@
            } else {
                "[0-9]+"@
            },
        ),
        TypeView::Record(_) => None,
        TypeView::List(_) => None,
        TypeView::Pointer => None,
    }
}

/// The regular expression of the texts that `FromStr` of a type may parse.
/// Matching it does not mean that the text parses.
pub trait FromStrRegex {
    fn from_str_regex(&self) -> Option<String>;
}

impl FromStrRegex for ValueType {
    fn from_str_regex(&self) -> (r: Option<String>)
        ensures
            opt_string_view(r) == spec_from_str_regex(self@),
    {
        match self {
            ValueType::Char => {
                let mut s = String::new();
                push_str(&mut s, "(?s:.)");
                Some(s)
            },
            ValueType::Str => Some(regex_any()),
            ValueType::Bool => {
                let mut s = String::new();
                push_str(&mut s, "true|false");
                Some(s)
            },
            ValueType::Int(k) => {
                assert(self@ == TypeView::Int(*k));
                match k {
                    crate::value::IntKind::I8 | crate::value::IntKind::I16 | crate::value::IntKind::I32
                    | crate::value::IntKind::I64 | crate::value::IntKind::I128 | crate::value::IntKind::Isize => Some(regex_sint()),
                    _ => Some(regex_uint()),
                }
            },
            ValueType::Record(_) => None,
            ValueType::List(_) => None,
            ValueType::Pointer => None,
        }
    }
}

/// The regular expression of the texts of integers, `None` for the other
/// types (strings match any text).
pub open spec fn spec_regex_for_from_str(t: TypeView) -> Option<Seq<char>> {
    match t {
        TypeView::Int(k) => Some(
            if is_signed(k) {
                "-?[0-9]+"@
            } else {
                "[0-9]+"@
            },
        ),
        _ => None,
    }
}

/// The regular expression of the texts that `FromStr` of a type parses.
pub trait RegexForFromStr {
    fn regex_for_from_str(&self) -> Option<String>;
}

impl RegexForFromStr for ValueType {
    fn regex_for_from_str(&self) -> (r: Option<String>)
        ensures
            opt_string_view(r) == spec_regex_for_from_str(self@),
    {
        match self {
            ValueType::Int(k) => {
                assert(self@ == TypeView::Int(*k));
                match k {
                    crate::value::IntKind::I8 | crate::value::IntKind::I16 | crate::value::IntKind::I32
                    | crate::value::IntKind::I64 | crate::value::IntKind::I128 | crate::value::IntKind::Isize => Some(regex_sint()),
                    _ => Some(regex_uint()),
                }
            },
            _ => None,
        }
    }
}

/// The format of a type's own `Display` and `FromStr`, whose regular
/// expression is the one of the type's texts.
pub struct RegexInfer;

impl FromStrFormat for RegexInfer {
    open spec fn parse_spec(&self, ty: TypeView, s: Seq<char>) -> Option<ValueView> {
        spec_parse_value(ty, s)
    }

    open spec fn regex_spec(&self, ty: TypeView) -> Option<Seq<char>> {
        spec_from_str_regex(ty)
    }

    fn parse(&self, ty: &ValueType, s: &str) -> (r: Result<Value, ParseError>) {
        match ty.parse(s) {
            Some(v) => Ok(v),
            None => Err(ParseError::new()),
        }
    }

    fn regex(&self, ty: &ValueType) -> (r: Option<String>) {
        ty.from_str_regex()
    }
}

/// Parses `s` as a value of the type `ty` with the format `fmt`.
pub fn parse_with<F: FromStrFormat>(fmt: &F, ty: &ValueType, s: &str) -> (r: Result<Value, ParseError>)
    ensures
        match r {
            Ok(v) => fmt.parse_spec(ty@, s@) == Some(v@),
            Err(_) => fmt.parse_spec(ty@, s@) is None,
        },
{
    fmt.parse(ty, s)
}

/// The regular expression of the texts that the format may parse as values
/// of `ty`.
pub fn to_regex<F: FromStrFormat>(format: &F, ty: &ValueType) -> (r: Option<String>)
    ensures
        opt_string_view(r) == format.regex_spec(ty@),
{
    format.regex(ty)
}

/// Items written with `item_format`, with `delimiter` between them.
pub struct Join {
    pub item_format: Fmt,
    pub delimiter: String,
}

/// Items written with `item_format`, with `delimiter` between them.
pub fn join(item_format: Fmt, delimiter: &str) -> (r: Join)
    ensures
        r.delimiter@ == delimiter@,
{
    let mut d = String::new();
    push_str(&mut d, delimiter);
    Join { item_format, delimiter: d }
}

/// Items written with their own `Display`, with `delimiter` between them.
pub fn delimiter(delim: &str) -> (r: Join)
    ensures
        r.delimiter@ == delim@,
{
    join(fmt(), delim)
}

/// The texts of the items with the delimiter between them; `None` where an
/// item has no text.
pub open spec fn spec_join_write(items: Seq<ValueView>, d: Seq<char>) -> Option<Seq<char>>
    decreases items.len(),
{
    if items.len() == 0 {
        Some(seq![])
    } else {
        match (spec_join_write(items.drop_last(), d), spec_display_text(items.last())) {
            (Some(prefix), Some(t)) => Some(
                if items.len() == 1 {
                    t
                } else {
                    prefix + d + t
                },
            ),
            _ => None,
        }
    }
}

/// The first index at or after `i` where `d` occurs in `s`.
pub open spec fn spec_find(s: Seq<char>, d: Seq<char>, i: int) -> Option<int>
    decreases s.len() + 1 - i,
{
    if i < 0 || i + d.len() > s.len() {
        None
    } else if s.subrange(i, i + d.len()) == d {
        Some(i)
    } else {
        spec_find(s, d, i + 1)
    }
}

/// The pieces of `s` between the occurrences of `d` (taken from the left,
/// without overlap), as `str::split` gives them; for the empty `d`, an empty
/// piece, each character, and an empty piece.
pub open spec fn spec_split(s: Seq<char>, d: Seq<char>) -> Seq<Seq<char>>
    decreases s.len(),
{
    if d.len() == 0 {
        seq![seq![]] + Seq::new(s.len(), |i: int| seq![s[i]]) + seq![seq![]]
    } else {
        match spec_find(s, d, 0) {
            None => seq![s],
            Some(j) => {
                proof {
                    lemma_find(s, d, 0);
                }
                seq![s.take(j)] + spec_split(s.skip(j + d.len()), d)
            },
        }
    }
}

pub proof fn lemma_find(s: Seq<char>, d: Seq<char>, i: int)
    requires
        0 <= i,
    ensures
        spec_find(s, d, i) matches Some(j) ==> i <= j && j + d.len() <= s.len() && s.subrange(j, j + d.len()) == d,
        spec_find(s, d, i) is None ==> forall|j: int| i <= j && 0 <= j && j + d.len() <= s.len() ==> #[trigger] s.subrange(j, j + d.len()) != d,
    decreases s.len() + 1 - i,
{
    if 0 <= i && i + d.len() <= s.len() && s.subrange(i, i + d.len()) != d {
        lemma_find(s, d, i + 1);
    }
}

/// The items of `parts` parsed as values of `ty`; `None` where one does not
/// parse.
pub open spec fn spec_parse_items(ty: TypeView, parts: Seq<Seq<char>>) -> Option<Seq<ValueView>>
    decreases parts.len(),
{
    if parts.len() == 0 {
        Some(seq![])
    } else {
        match (spec_parse_items(ty, parts.drop_last()), spec_parse_value(ty, parts.last())) {
            (Some(vs), Some(v)) => Some(vs.push(v)),
            _ => None,
        }
    }
}

impl Join {
    /// The items written with the delimiter between them; `None` where an
    /// item has no text.
    pub fn write(&self, items: &Vec<Value>) -> (r: Option<String>)
        ensures
            opt_string_view(r) == spec_join_write(values_view(items@), self.delimiter@),
    {
        let ghost iv = values_view(items@);
        let dc = chars_of(self.delimiter.as_str());
        let mut out: Vec<char> = Vec::new();
        let mut i: usize = 0;
        assert(iv.take(0) =~= Seq::<ValueView>::empty());
        while i < items.len()
            invariant
                i <= items.len(),
                iv == values_view(items@),
                dc@ == self.delimiter@,
                spec_join_write(iv.take(i as int), dc@) == Some(out@),
            decreases items.len() - i,
        {
            let t = match self.item_format.write(&items[i]) {
                Some(t) => t,
                None => {
                    proof {
                        lemma_join_write_prefix(iv, dc@, i + 1);
                        assert(iv.take(i + 1).drop_last() =~= iv.take(i as int));
                    }
                    return None;
                },
            };
            let tc = chars_of(t.as_str());
            if i > 0 {
                crate::render::append(&mut out, &dc);
            }
            crate::render::append(&mut out, &tc);
            proof {
                assert(iv.take(i + 1).drop_last() =~= iv.take(i as int));
                assert(iv.take(i + 1).last() == items@[i as int]@);
            }
            i += 1;
        }
        assert(iv.take(items.len() as int) =~= iv);
        Some(string_of(&out))
    }
}

/// Where an item has no text, no longer prefix has one either.
pub proof fn lemma_join_write_prefix(items: Seq<ValueView>, d: Seq<char>, n: int)
    requires
        0 <= n <= items.len(),
        spec_join_write(items.take(n), d) is None,
    ensures
        spec_join_write(items, d) is None,
    decreases items.len() - n,
{
    if n < items.len() {
        assert(items.take(n + 1).drop_last() =~= items.take(n));
        lemma_join_write_prefix(items, d, n + 1);
    } else {
        assert(items.take(n) =~= items);
    }
}


pub open spec fn pieces_view(v: Seq<Vec<char>>) -> Seq<Seq<char>> {
    v.map_values(|p: Vec<char>| p@)
}

/// Whether `d` occurs in `s` at `i`.
fn occurs_at(s: &Vec<char>, d: &Vec<char>, i: usize) -> (r: bool)
    requires
        i + d.len() <= s.len(),
    ensures
        r == (s@.subrange(i as int, i + d.len()) == d@),
{
    let mut k: usize = 0;
    while k < d.len()
        invariant
            k <= d.len(),
            i + d.len() <= s.len(),
            forall|m: int| 0 <= m < k ==> s@[i + m] == d@[m],
        decreases d.len() - k,
    {
        if s[i + k] != d[k] {
            assert(s@.subrange(i as int, i + d.len())[k as int] != d@[k as int]);
            return false;
        }
        k += 1;
    }
    assert(s@.subrange(i as int, i + d.len()) =~= d@);
    true
}

/// The first index where `d` occurs in `s`.
fn find(s: &Vec<char>, d: &Vec<char>) -> (r: Option<usize>)
    requires
        d.len() > 0,
    ensures
        match r {
            Some(j) => spec_find(s@, d@, 0) == Some(j as int),
            None => spec_find(s@, d@, 0) is None,
        },
{
    if d.len() > s.len() {
        return None;
    }
    let mut i: usize = 0;
    while i <= s.len() - d.len()
        invariant
            0 < d.len() <= s.len(),
            i <= s.len() - d.len() + 1,
            spec_find(s@, d@, 0) == spec_find(s@, d@, i as int),
        decreases s.len() + 1 - i,
    {
        if occurs_at(s, d, i) {
            return Some(i);
        }
        i += 1;
    }
    None
}

/// `s[from..]`.
fn suffix(s: &Vec<char>, from: usize) -> (r: Vec<char>)
    requires
        from <= s.len(),
    ensures
        r@ == s@.skip(from as int),
{
    let mut out: Vec<char> = Vec::new();
    let mut i = from;
    while i < s.len()
        invariant
            from <= i <= s.len(),
            out@ == s@.subrange(from as int, i as int),
        decreases s.len() - i,
    {
        out.push(s[i]);
        i += 1;
        assert(out@ =~= s@.subrange(from as int, i as int));
    }
    assert(out@ =~= s@.skip(from as int));
    out
}

/// The pieces of `s` between the occurrences of `d`.
fn split(s: &Vec<char>, d: &Vec<char>) -> (r: Vec<Vec<char>>)
    ensures
        pieces_view(r@) == spec_split(s@, d@),
{
    let mut out: Vec<Vec<char>> = Vec::new();
    if d.len() == 0 {
        out.push(Vec::new());
        let mut i: usize = 0;
        while i < s.len()
            invariant
                i <= s.len(),
                pieces_view(out@) =~= seq![Seq::<char>::empty()] + Seq::new(i as nat, |m: int| seq![s@[m]]),
            decreases s.len() - i,
        {
            let mut one: Vec<char> = Vec::new();
            one.push(s[i]);
            let ghost before = out@;
            out.push(one);
            assert(out@ == before.push(one));
            assert(pieces_view(out@) =~= pieces_view(before).push(seq![s@[i as int]]));
            i += 1;
        }
        let ghost before = out@;
        let e: Vec<char> = Vec::new();
        out.push(e);
        assert(out@ == before.push(e));
        assert(pieces_view(out@) =~= pieces_view(before).push(Seq::<char>::empty()));
        assert(pieces_view(out@) =~= spec_split(s@, d@));
        return out;
    }
    let mut rest = suffix(s, 0);
    assert(s@.skip(0) =~= s@);
    loop
        invariant
            d.len() > 0,
            spec_split(s@, d@) == pieces_view(out@) + spec_split(rest@, d@),
        decreases rest.len(),
    {
        proof {
            lemma_find(rest@, d@, 0);
        }
        match find(&rest, d) {
            None => {
                let ghost before = out@;
                let ghost rv = rest@;
                out.push(rest);
                assert(out@ == before.push(rest));
                assert(pieces_view(out@) =~= pieces_view(before) + seq![rv]);
                return out;
            },
            Some(j) => {
                let mut piece: Vec<char> = Vec::new();
                let mut k: usize = 0;
                while k < j
                    invariant
                        k <= j,
                        j <= rest.len(),
                        piece@ == rest@.take(k as int),
                    decreases j - k,
                {
                    piece.push(rest[k]);
                    k += 1;
                    assert(piece@ =~= rest@.take(k as int));
                }
                let next = suffix(&rest, j + d.len());
                let ghost before = out@;
                let ghost rv = rest@;
                out.push(piece);
                assert(out@ == before.push(piece));
                assert(pieces_view(out@) =~= pieces_view(before) + seq![rv.take(j as int)]);
                assert(spec_split(rv, d@) == seq![rv.take(j as int)] + spec_split(rv.skip(j + d.len()), d@));
                assert(pieces_view(out@) + spec_split(next@, d@) =~= pieces_view(before) + spec_split(rv, d@));
                rest = next;
            },
        }
    }
}

impl Join {
    /// The pieces of `s` between the occurrences of the delimiter, each
    /// parsed as a value of `ty`; an error where one does not parse.
    pub fn parse(&self, ty: &ValueType, s: &str) -> (r: Result<Vec<Value>, ParseError>)
        ensures
            match r {
                Ok(vs) => spec_parse_items(ty@, spec_split(s@, self.delimiter@)) == Some(values_view(vs@)),
                Err(_) => spec_parse_items(ty@, spec_split(s@, self.delimiter@)) is None,
            },
    {
        let sc = chars_of(s);
        let dc = chars_of(self.delimiter.as_str());
        let pieces = split(&sc, &dc);
        let ghost pv = pieces_view(pieces@);
        let mut out: Vec<Value> = Vec::new();
        let mut i: usize = 0;
        assert(pv.take(0) =~= Seq::<Seq<char>>::empty());
        while i < pieces.len()
            invariant
                i <= pieces.len(),
                pv == pieces_view(pieces@),
                pv == spec_split(s@, self.delimiter@),
                spec_parse_items(ty@, pv.take(i as int)) == Some(values_view(out@)),
            decreases pieces.len() - i,
        {
            let text = string_of(&pieces[i]);
            assert(pv.take(i + 1).drop_last() =~= pv.take(i as int));
            assert(pv.take(i + 1).last() == pieces@[i as int]@);
            match ty.parse(text.as_str()) {
                Some(v) => {
                    let ghost before = values_view(out@);
                    out.push(v);
                    assert(values_view(out@) =~= before.push(v@));
                },
                None => {
                    proof {
                        lemma_parse_items_prefix(ty@, pv, i + 1);
                    }
                    return Err(ParseError::new());
                },
            }
            i += 1;
        }
        assert(pv.take(pieces.len() as int) =~= pv);
        Ok(out)
    }
}

/// Where an item does not parse, no longer prefix parses either.
pub proof fn lemma_parse_items_prefix(ty: TypeView, parts: Seq<Seq<char>>, n: int)
    requires
        0 <= n <= parts.len(),
        spec_parse_items(ty, parts.take(n)) is None,
    ensures
        spec_parse_items(ty, parts) is None,
    decreases parts.len() - n,
{
    if n < parts.len() {
        assert(parts.take(n + 1).drop_last() =~= parts.take(n));
        lemma_parse_items_prefix(ty, parts, n + 1);
    } else {
        assert(parts.take(n) =~= parts);
    }
}


/// The text of an optional value: what the function `f` writes of the
/// value, or `none_value` where there is none.
pub struct OptionFormatHelper<F> {
    pub value: Option<Value>,
    pub f: F,
    pub none_value: String,
}

impl<F: Fn(&Value) -> Option<String>> OptionFormatHelper<F> {
    /// The text: for a value, what one call of `f` on it returns (`None`
    /// where `f` writes nothing); else `none_value`, without calling `f`.
    pub fn to_string(&self) -> (r: Option<String>)
        requires
            self.value matches Some(v) ==> self.f.requires((&v,)),
        ensures
            match self.value {
                Some(v) => self.f.ensures((&v,), r),
                None => r == Some(self.none_value),
            },
    {
        match &self.value {
            Some(v) => (self.f)(v),
            None => Some(self.none_value.clone()),
        }
    }
}

/// What a constructor of a type returns, turned into a `Result`.
pub trait IntoResult<T> {
    type Err;

    fn into_result(self) -> Result<T, Self::Err>;
}

impl<T> IntoResult<T> for Option<T> {
    type Err = ParseError;

    /// The value, or the error `parse failed.` where there is none.
    fn into_result(self) -> (r: Result<T, ParseError>)
        ensures
            match self {
                Some(v) => r == Ok::<T, ParseError>(v),
                None => r matches Err(e) && e.message()@ == "parse failed."@,
            },
    {
        match self {
            Some(v) => Ok(v),
            None => Err(ParseError::new()),
        }
    }
}

impl<T, E> IntoResult<T> for Result<T, E> {
    type Err = E;

    /// The result as it is.
    fn into_result(self) -> (r: Result<T, E>)
        ensures
            r == self,
    {
        self
    }
}

} // verus!
