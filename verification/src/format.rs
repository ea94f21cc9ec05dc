//! The format strings of `#[display("...")]`: `{{` and `}}` stand for braces,
//! `{arg}` and `{arg:spec}` for arguments, and any other run of characters for
//! itself.
use vstd::prelude::*;
use crate::util::{chars_of, push_char, push_chars, substring};

verus! {

/// One piece of a parsed format string.
pub enum DisplayFormatPart {
    /// A run of characters without braces.
    Str(String),
    /// `{{`
    EscapedBeginBracket,
    /// `}}`
    EscapedEndBracket,
    /// `{arg}` or `{arg:format_spec}`.
    Var { arg: String, format_spec: String },
}

/// The mathematical model of a [`DisplayFormatPart`].
pub enum PartView {
    Str(Seq<char>),
    EscapedBeginBracket,
    EscapedEndBracket,
    Var { arg: Seq<char>, format_spec: Seq<char> },
}

impl View for DisplayFormatPart {
    type V = PartView;

    open spec fn view(&self) -> PartView {
        match self {
            DisplayFormatPart::Str(s) => PartView::Str(s@),
            DisplayFormatPart::EscapedBeginBracket => PartView::EscapedBeginBracket,
            DisplayFormatPart::EscapedEndBracket => PartView::EscapedEndBracket,
            DisplayFormatPart::Var { arg, format_spec } => PartView::Var {
                arg: arg@,
                format_spec: format_spec@,
            },
        }
    }
}

/// A parsed format string.
pub struct DisplayFormat {
    pub parts: Vec<DisplayFormatPart>,
}

pub open spec fn parts_view(v: Seq<DisplayFormatPart>) -> Seq<PartView> {
    v.map_values(|p: DisplayFormatPart| p@)
}

impl View for DisplayFormat {
    type V = Seq<PartView>;

    open spec fn view(&self) -> Seq<PartView> {
        parts_view(self.parts@)
    }
}

pub open spec fn is_brace(c: char) -> bool {
    c == '{' || c == '}'
}

/// The first index at or after `i` that holds a brace (or `s.len()`).
pub open spec fn scan_non_brace(s: Seq<char>, i: int) -> int
    decreases s.len() - i,
{
    if i < 0 || i >= s.len() || is_brace(s[i]) {
        i
    } else {
        scan_non_brace(s, i + 1)
    }
}

/// The first index at or after `i` that holds `:`, `{` or `}` (or `s.len()`).
pub open spec fn scan_arg(s: Seq<char>, i: int) -> int
    decreases s.len() - i,
{
    if i < 0 || i >= s.len() || s[i] == ':' || is_brace(s[i]) {
        i
    } else {
        scan_arg(s, i + 1)
    }
}

/// The first index at or after `i` that holds `}` (or `s.len()`).
pub open spec fn scan_close(s: Seq<char>, i: int) -> int
    decreases s.len() - i,
{
    if i < 0 || i >= s.len() || s[i] == '}' {
        i
    } else {
        scan_close(s, i + 1)
    }
}

pub proof fn lemma_scan_bounds(s: Seq<char>, i: int)
    requires
        0 <= i <= s.len(),
    ensures
        i <= scan_non_brace(s, i) <= s.len(),
        i <= scan_arg(s, i) <= s.len(),
        i <= scan_close(s, i) <= s.len(),
        i < s.len() && !is_brace(s[i]) ==> scan_non_brace(s, i) > i,
    decreases s.len() - i,
{
    if i < s.len() {
        lemma_scan_bounds(s, i + 1);
    }
}

pub open spec fn cons_part(p: PartView, rest: Option<Seq<PartView>>) -> Option<Seq<PartView>> {
    match rest {
        Some(r) => Some(seq![p] + r),
        None => None,
    }
}

/// What `DisplayFormat::parse` makes of a format string: `None` where the
/// string is not a valid format.
pub open spec fn spec_parse_format(s: Seq<char>) -> Option<Seq<PartView>>
    decreases s.len(),
{
    if s.len() == 0 {
        Some(seq![])
    } else if s.len() >= 2 && s[0] == '{' && s[1] == '{' {
        cons_part(PartView::EscapedBeginBracket, spec_parse_format(s.skip(2)))
    } else if s.len() >= 2 && s[0] == '}' && s[1] == '}' {
        cons_part(PartView::EscapedEndBracket, spec_parse_format(s.skip(2)))
    } else if !is_brace(s[0]) {
        let e = scan_non_brace(s, 0);
        proof {
            lemma_scan_bounds(s, 0);
        }
        cons_part(PartView::Str(s.take(e)), spec_parse_format(s.skip(e)))
    } else if s[0] == '{' {
        let a = scan_arg(s, 1);
        proof {
            lemma_scan_bounds(s, 1);
        }
        if a >= s.len() {
            None
        } else if s[a] == '}' {
            cons_part(
                PartView::Var { arg: s.subrange(1, a), format_spec: seq![] },
                spec_parse_format(s.skip(a + 1)),
            )
        } else if s[a] == ':' {
            let c = scan_close(s, a + 1);
            proof {
                lemma_scan_bounds(s, a + 1);
            }
            if c >= s.len() {
                None
            } else {
                cons_part(
                    PartView::Var { arg: s.subrange(1, a), format_spec: s.subrange(a + 1, c) },
                    spec_parse_format(s.skip(c + 1)),
                )
            }
        } else {
            None
        }
    } else {
        None
    }
}

pub open spec fn append_parts(p: Seq<PartView>, rest: Option<Seq<PartView>>) -> Option<
    Seq<PartView>,
> {
    match rest {
        Some(r) => Some(p + r),
        None => None,
    }
}

/// The text a part stands for, where it is not an argument.
pub open spec fn part_text(p: PartView) -> Option<Seq<char>> {
    match p {
        PartView::Str(s) => Some(s),
        PartView::EscapedBeginBracket => Some(seq!['{']),
        PartView::EscapedEndBracket => Some(seq!['}']),
        PartView::Var { .. } => None,
    }
}

/// The text of a format without arguments; `None` where it has one.
pub open spec fn spec_try_unescape(p: Seq<PartView>) -> Option<Seq<char>>
    decreases p.len(),
{
    if p.len() == 0 {
        Some(seq![])
    } else {
        match (part_text(p[0]), spec_try_unescape(p.drop_first())) {
            (Some(t), Some(r)) => Some(t + r),
            _ => None,
        }
    }
}

pub open spec fn escape_char(c: char) -> Seq<char> {
    if c == '{' {
        seq!['{', '{']
    } else if c == '}' {
        seq!['}', '}']
    } else {
        seq![c]
    }
}

/// `s` with each brace doubled.
pub open spec fn spec_escape_fmt(s: Seq<char>) -> Seq<char>
    decreases s.len(),
{
    if s.len() == 0 {
        seq![]
    } else {
        spec_escape_fmt(s.drop_last()) + escape_char(s.last())
    }
}

proof fn lemma_scan_skip(s: Seq<char>, k: int, j: int)
    requires
        0 <= k <= s.len(),
        0 <= j <= s.len() - k,
    ensures
        scan_non_brace(s.skip(k), j) == scan_non_brace(s, k + j) - k,
        scan_arg(s.skip(k), j) == scan_arg(s, k + j) - k,
        scan_close(s.skip(k), j) == scan_close(s, k + j) - k,
    decreases s.len() - k - j,
{
    if j < s.len() - k {
        lemma_scan_skip(s, k, j + 1);
    }
}

/// Finds the end of the run of characters without braces that starts at `i`.
fn find_non_brace(c: &Vec<char>, i: usize) -> (r: usize)
    requires
        i <= c.len(),
    ensures
        r == scan_non_brace(c@, i as int),
{
    let mut j = i;
    while j < c.len() && c[j] != '{' && c[j] != '}'
        invariant
            i <= j <= c.len(),
            scan_non_brace(c@, i as int) == scan_non_brace(c@, j as int),
        decreases c.len() - j,
    {
        j += 1;
    }
    j
}

fn find_arg_end(c: &Vec<char>, i: usize) -> (r: usize)
    requires
        i <= c.len(),
    ensures
        r == scan_arg(c@, i as int),
{
    let mut j = i;
    while j < c.len() && c[j] != ':' && c[j] != '{' && c[j] != '}'
        invariant
            i <= j <= c.len(),
            scan_arg(c@, i as int) == scan_arg(c@, j as int),
        decreases c.len() - j,
    {
        j += 1;
    }
    j
}

fn find_close(c: &Vec<char>, i: usize) -> (r: usize)
    requires
        i <= c.len(),
    ensures
        r == scan_close(c@, i as int),
{
    let mut j = i;
    while j < c.len() && c[j] != '}'
        invariant
            i <= j <= c.len(),
            scan_close(c@, i as int) == scan_close(c@, j as int),
        decreases c.len() - j,
    {
        j += 1;
    }
    j
}

impl DisplayFormat {
    /// Parses a format string; `None` where it is not a valid format.
    pub fn parse(s: &str) -> (r: Option<DisplayFormat>)
        ensures
            match r {
                Some(f) => spec_parse_format(s@) == Some(f@),
                None => spec_parse_format(s@) is None,
            },
    {
        let c = chars_of(s);
        let n = c.len();
        let mut parts: Vec<DisplayFormatPart> = Vec::new();
        let mut i: usize = 0;
        assert(c@.skip(0) =~= c@);
        while i < n
            invariant
                n == c.len(),
                i <= n,
                c@ == s@,
                spec_parse_format(s@) == append_parts(
                    parts_view(parts@),
                    spec_parse_format(c@.skip(i as int)),
                ),
            decreases n - i,
        {
            let ghost t = c@.skip(i as int);
            let ghost old_parts = parts_view(parts@);
            proof {
                lemma_scan_skip(c@, i as int, 0);
                lemma_scan_bounds(c@, i as int);
            }
            if i + 1 < n && c[i] == '{' && c[i + 1] == '{' {
                parts.push(DisplayFormatPart::EscapedBeginBracket);
                proof {
                    assert(t.skip(2) =~= c@.skip(i + 2));
                    assert(parts_view(parts@) =~= old_parts.push(PartView::EscapedBeginBracket));
                }
                i += 2;
            } else if i + 1 < n && c[i] == '}' && c[i + 1] == '}' {
                parts.push(DisplayFormatPart::EscapedEndBracket);
                proof {
                    assert(t.skip(2) =~= c@.skip(i + 2));
                    assert(parts_view(parts@) =~= old_parts.push(PartView::EscapedEndBracket));
                }
                i += 2;
            } else if c[i] != '{' && c[i] != '}' {
                let e = find_non_brace(&c, i);
                let text = substring(&c, i, e);
                parts.push(DisplayFormatPart::Str(text));
                proof {
                    assert(t.take(e - i) =~= c@.subrange(i as int, e as int));
                    assert(t.skip(e - i) =~= c@.skip(e as int));
                    assert(parts_view(parts@) =~= old_parts.push(
                        PartView::Str(c@.subrange(i as int, e as int)),
                    ));
                }
                i = e;
            } else if c[i] == '{' {
                proof {
                    lemma_scan_skip(c@, i as int, 1);
                    lemma_scan_bounds(c@, i + 1);
                }
                let a = find_arg_end(&c, i + 1);
                if a >= n {
                    return None;
                }
                if c[a] == '}' {
                    let arg = substring(&c, i + 1, a);
                    parts.push(DisplayFormatPart::Var { arg, format_spec: String::new() });
                    proof {
                        assert(t.subrange(1, a - i) =~= c@.subrange(i + 1, a as int));
                        assert(t.skip(a - i + 1) =~= c@.skip(a + 1));
                        assert(parts_view(parts@) =~= old_parts.push(
                            PartView::Var {
                                arg: c@.subrange(i + 1, a as int),
                                format_spec: seq![],
                            },
                        ));
                    }
                    i = a + 1;
                } else if c[a] == ':' {
                    proof {
                        lemma_scan_skip(c@, i as int, a - i + 1);
                        lemma_scan_bounds(c@, a + 1);
                    }
                    let e = find_close(&c, a + 1);
                    if e >= n {
                        return None;
                    }
                    let arg = substring(&c, i + 1, a);
                    let format_spec = substring(&c, a + 1, e);
                    parts.push(DisplayFormatPart::Var { arg, format_spec });
                    proof {
                        assert(t.subrange(1, a - i) =~= c@.subrange(i + 1, a as int));
                        assert(t.subrange(a - i + 1, e - i) =~= c@.subrange(a + 1, e as int));
                        assert(t.skip(e - i + 1) =~= c@.skip(e + 1));
                        assert(parts_view(parts@) =~= old_parts.push(
                            PartView::Var {
                                arg: c@.subrange(i + 1, a as int),
                                format_spec: c@.subrange(a + 1, e as int),
                            },
                        ));
                    }
                    i = e + 1;
                } else {
                    return None;
                }
            } else {
                return None;
            }
        }
        proof {
            assert(c@.skip(n as int) =~= Seq::<char>::empty());
            assert(parts_view(parts@) + Seq::<PartView>::empty() =~= parts_view(parts@));
        }
        Some(DisplayFormat { parts })
    }

    /// The text of the format, where it has no argument.
    pub fn try_unescape(&self) -> (r: Option<String>)
        ensures
            match r {
                Some(t) => spec_try_unescape(self@) == Some(t@),
                None => spec_try_unescape(self@) is None,
            },
    {
        let mut i = self.parts.len();
        let ghost p = self@;
        let mut acc = String::new();
        while i > 0
            invariant
                i <= self.parts.len(),
                p == self@,
                p.len() == self.parts.len(),
                spec_try_unescape(p.skip(i as int)) == Some(acc@),
            decreases i,
        {
            let ghost q = p.skip(i - 1);
            proof {
                assert(q.drop_first() =~= p.skip(i as int));
                assert(q[0] == p[i - 1]);
                assert(p[i - 1] == self.parts@[i - 1]@);
            }
            let mut piece = String::new();
            match &self.parts[i - 1] {
                DisplayFormatPart::Str(s) => {
                    piece = s.clone();
                },
                DisplayFormatPart::EscapedBeginBracket => {
                    push_char(&mut piece, '{');
                },
                DisplayFormatPart::EscapedEndBracket => {
                    push_char(&mut piece, '}');
                },
                DisplayFormatPart::Var { .. } => {
                    proof {
                        lemma_unescape_none_at(p, i - 1);
                    }
                    return None;
                },
            }
            let rest = acc;
            acc = piece;
            let rv = chars_of(rest.as_str());
            push_chars(&mut acc, &rv);
            i -= 1;
        }
        proof {
            assert(p.skip(0) =~= p);
        }
        Some(acc)
    }
}

proof fn lemma_unescape_none_at(p: Seq<PartView>, k: int)
    requires
        0 <= k < p.len(),
        part_text(p[k]) is None,
    ensures
        spec_try_unescape(p) is None,
    decreases k,
{
    if k > 0 {
        lemma_unescape_none_at(p.drop_first(), k - 1);
    }
}

/// Doubles each brace of `s`, so that the result reads as `s` in a format string.
pub fn escape_fmt(s: &str) -> (r: String)
    ensures
        r@ == spec_escape_fmt(s@),
{
    let c = chars_of(s);
    let mut out = String::new();
    let mut i: usize = 0;
    while i < c.len()
        invariant
            i <= c.len(),
            c@ == s@,
            out@ == spec_escape_fmt(c@.take(i as int)),
        decreases c.len() - i,
    {
        let ch = c[i];
        if ch == '{' {
            push_char(&mut out, '{');
            push_char(&mut out, '{');
        } else if ch == '}' {
            push_char(&mut out, '}');
            push_char(&mut out, '}');
        } else {
            push_char(&mut out, ch);
        }
        proof {
            assert(c@.take(i + 1).drop_last() =~= c@.take(i as int));
        }
        i += 1;
    }
    assert(c@.take(c@.len() as int) =~= c@);
    out
}

} // verus!

verus! {

proof fn lemma_escape_concat(a: Seq<char>, b: Seq<char>)
    ensures
        spec_escape_fmt(a + b) == spec_escape_fmt(a) + spec_escape_fmt(b),
    decreases b.len(),
{
    if b.len() == 0 {
        assert(a + b =~= a);
        assert(spec_escape_fmt(a) + spec_escape_fmt(b) =~= spec_escape_fmt(a));
    } else {
        lemma_escape_concat(a, b.drop_last());
        assert((a + b).drop_last() =~= a + b.drop_last());
        assert((a + b).last() == b.last());
        assert(spec_escape_fmt(a + b) =~= spec_escape_fmt(a) + spec_escape_fmt(b));
    }
}

proof fn lemma_escape_single(c: char)
    ensures
        spec_escape_fmt(seq![c]) == escape_char(c),
{
    let e = Seq::<char>::empty();
    assert(seq![c].drop_last() =~= e);
    assert(spec_escape_fmt(e) == e);
    assert(e + escape_char(c) =~= escape_char(c));
}

proof fn lemma_escape_brace_free(s: Seq<char>)
    requires
        forall|j: int| 0 <= j < s.len() ==> !is_brace(#[trigger] s[j]),
    ensures
        spec_escape_fmt(s) == s,
    decreases s.len(),
{
    if s.len() > 0 {
        lemma_escape_brace_free(s.drop_last());
        assert(s.drop_last().push(s.last()) =~= s);
    }
}

proof fn lemma_scan_non_brace_run(s: Seq<char>, i: int)
    requires
        0 <= i <= s.len(),
    ensures
        forall|j: int| i <= j < scan_non_brace(s, i) ==> !is_brace(#[trigger] s[j]),
        scan_non_brace(s, i) < s.len() ==> is_brace(s[scan_non_brace(s, i)]),
    decreases s.len() - i,
{
    if i < s.len() && !is_brace(s[i]) {
        lemma_scan_non_brace_run(s, i + 1);
    }
}

proof fn lemma_scan_non_brace_stop(u: Seq<char>, j: int, n: int)
    requires
        0 <= j <= n <= u.len(),
        forall|k: int| j <= k < n ==> !is_brace(#[trigger] u[k]),
        n == u.len() || is_brace(u[n]),
    ensures
        scan_non_brace(u, j) == n,
    decreases n - j,
{
    if j < n {
        lemma_scan_non_brace_stop(u, j + 1, n);
    }
}

/// A string with its braces doubled reads back, as a format string, as that
/// string: it parses, has no argument, and its text is `s` again.
pub proof fn lemma_escape_fmt_roundtrip(s: Seq<char>)
    ensures
        spec_parse_format(spec_escape_fmt(s)) is Some,
        spec_try_unescape(spec_parse_format(spec_escape_fmt(s))->0) == Some(s),
    decreases s.len(),
{
    let e = spec_escape_fmt(s);
    if s.len() == 0 {
        assert(spec_try_unescape(Seq::<PartView>::empty()) == Some(Seq::<char>::empty()));
    } else if is_brace(s[0]) {
        let d = s.drop_first();
        lemma_escape_concat(seq![s[0]], d);
        assert(seq![s[0]] + d =~= s);
        lemma_escape_single(s[0]);
        lemma_escape_fmt_roundtrip(d);
        let p2 = spec_parse_format(spec_escape_fmt(d))->0;
        assert(e.skip(2) =~= spec_escape_fmt(d));
        let head = if s[0] == '{' {
            PartView::EscapedBeginBracket
        } else {
            PartView::EscapedEndBracket
        };
        assert(spec_parse_format(e) == Some(seq![head] + p2));
        assert((seq![head] + p2).drop_first() =~= p2);
        assert(part_text(head) == Some(seq![s[0]]));
        assert(seq![s[0]] + d =~= s);
    } else {
        let n = scan_non_brace(s, 0);
        lemma_scan_bounds(s, 0);
        lemma_scan_non_brace_run(s, 0);
        let a = s.take(n);
        let b = s.skip(n);
        assert(a + b =~= s);
        lemma_escape_concat(a, b);
        assert forall|j: int| 0 <= j < a.len() implies !is_brace(#[trigger] a[j]) by {
            assert(a[j] == s[j]);
        }
        lemma_escape_brace_free(a);
        let eb = spec_escape_fmt(b);
        assert(eb.len() == 0 || is_brace(eb[0])) by {
            if b.len() > 0 {
                lemma_escape_concat(seq![b[0]], b.drop_first());
                assert(seq![b[0]] + b.drop_first() =~= b);
                lemma_escape_single(b[0]);
                assert(b[0] == s[n]);
            }
        }
        assert(e == a + eb);
        assert forall|k: int| 0 <= k < n implies !is_brace(#[trigger] e[k]) by {
            assert(e[k] == a[k]);
        }
        if n < e.len() {
            assert(e[n] == eb[0]);
        }
        lemma_scan_non_brace_stop(e, 0, n);
        assert(e.take(n) =~= a);
        assert(e.skip(n) =~= eb);
        lemma_escape_fmt_roundtrip(b);
        let p2 = spec_parse_format(eb)->0;
        assert(e[0] == s[0]);
        assert(spec_parse_format(e) == Some(seq![PartView::Str(a)] + p2));
        assert((seq![PartView::Str(a)] + p2).drop_first() =~= p2);
    }
}

} // verus!
