//! The format specifiers of arguments in format strings, such as `:>4`, `:#x`
//! or `:_>+#05$.name$x?`.
use vstd::prelude::*;
use crate::util::chars_of;

verus! {

#[derive(Debug, PartialEq, Eq, Clone, Copy)]
pub enum Sign {
    Plus,
    Minus,
}

#[derive(Debug, PartialEq, Eq, Clone, Copy)]
pub enum Align {
    Left,
    Right,
    Center,
}

/// A width or a precision: a number, an argument by index or by name, or `*`.
#[derive(Debug, PartialEq, Eq)]
pub enum SubArg {
    Value(usize),
    Index(usize),
    Name(String),
    Input,
}

pub enum SubArgView {
    Value(usize),
    Index(usize),
    Name(Seq<char>),
    Input,
}

impl View for SubArg {
    type V = SubArgView;

    open spec fn view(&self) -> SubArgView {
        match self {
            SubArg::Value(v) => SubArgView::Value(*v),
            SubArg::Index(v) => SubArgView::Index(*v),
            SubArg::Name(s) => SubArgView::Name(s@),
            SubArg::Input => SubArgView::Input,
        }
    }
}

/// The formatting trait that an argument is written with.
#[derive(Debug, PartialEq, Eq, Clone, Copy, Default, Structural)]
pub enum FormatType {
    #[default]
    Display,
    Debug,
    DebugUpperHex,
    DebugLowerHex,
    Octal,
    LowerHex,
    UpperHex,
    Pointer,
    Binary,
    LowerExp,
    UpperExp,
}

/// A parsed format specifier.
#[derive(Debug, PartialEq, Eq, Default)]
pub struct FormatSpec {
    pub fill: Option<char>,
    pub align: Option<Align>,
    pub sign: Option<Sign>,
    pub is_alternate: bool,
    pub is_zero: bool,
    pub width: Option<SubArg>,
    pub precision: Option<SubArg>,
    pub format_type: FormatType,
}

pub struct FormatSpecView {
    pub fill: Option<char>,
    pub align: Option<Align>,
    pub sign: Option<Sign>,
    pub is_alternate: bool,
    pub is_zero: bool,
    pub width: Option<SubArgView>,
    pub precision: Option<SubArgView>,
    pub format_type: FormatType,
}

pub open spec fn opt_sub_arg_view(a: Option<SubArg>) -> Option<SubArgView> {
    match a {
        Some(x) => Some(x@),
        None => None,
    }
}

impl View for FormatSpec {
    type V = FormatSpecView;

    open spec fn view(&self) -> FormatSpecView {
        FormatSpecView {
            fill: self.fill,
            align: self.align,
            sign: self.sign,
            is_alternate: self.is_alternate,
            is_zero: self.is_zero,
            width: opt_sub_arg_view(self.width),
            precision: opt_sub_arg_view(self.precision),
            format_type: self.format_type,
        }
    }
}

/// The error of a format specifier that does not parse.
#[derive(Debug, PartialEq, Eq)]
pub struct FormatParseError;

/// The name of the formatting trait of a format type.
pub open spec fn spec_trait_name(t: FormatType) -> Seq<char> {
    match t {
        FormatType::Display => "Display"@,
        FormatType::Debug | FormatType::DebugUpperHex | FormatType::DebugLowerHex => "Debug"@,
        FormatType::Octal => "Octal"@,
        FormatType::LowerHex => "LowerHex"@,
        FormatType::UpperHex => "UpperHex"@,
        FormatType::Pointer => "Pointer"@,
        FormatType::Binary => "Binary"@,
        FormatType::LowerExp => "LowerExp"@,
        FormatType::UpperExp => "UpperExp"@,
    }
}

impl FormatType {
    /// The name of the formatting trait, such as `Display` or `LowerHex`.
    pub fn trait_name(&self) -> (r: &'static str)
        ensures
            r@ == spec_trait_name(*self),
    {
        match self {
            FormatType::Display => "Display",
            FormatType::Debug | FormatType::DebugUpperHex | FormatType::DebugLowerHex => "Debug",
            FormatType::Octal => "Octal",
            FormatType::LowerHex => "LowerHex",
            FormatType::UpperHex => "UpperHex",
            FormatType::Pointer => "Pointer",
            FormatType::Binary => "Binary",
            FormatType::LowerExp => "LowerExp",
            FormatType::UpperExp => "UpperExp",
        }
    }
}

/// The format type named by the end of a specifier: `""`, `?`, `x?`, `X?`,
/// `o`, `x`, `X`, `p`, `b`, `e` or `E`.
pub open spec fn spec_format_type_of(s: Seq<char>) -> Option<FormatType> {
    if s.len() == 0 {
        Some(FormatType::Display)
    } else if s.len() == 1 {
        let c = s[0];
        if c == '?' {
            Some(FormatType::Debug)
        } else if c == 'o' {
            Some(FormatType::Octal)
        } else if c == 'x' {
            Some(FormatType::LowerHex)
        } else if c == 'X' {
            Some(FormatType::UpperHex)
        } else if c == 'p' {
            Some(FormatType::Pointer)
        } else if c == 'b' {
            Some(FormatType::Binary)
        } else if c == 'e' {
            Some(FormatType::LowerExp)
        } else if c == 'E' {
            Some(FormatType::UpperExp)
        } else {
            None
        }
    } else if s.len() == 2 && s[1] == '?' && s[0] == 'x' {
        Some(FormatType::DebugLowerHex)
    } else if s.len() == 2 && s[1] == '?' && s[0] == 'X' {
        Some(FormatType::DebugUpperHex)
    } else {
        None
    }
}

pub open spec fn is_digit(c: char) -> bool {
    '0' <= c <= '9'
}

/// The regular expression of format specifiers, as `FormatSpec::parse`
/// hands it to the `regex` crate.
pub open spec fn format_spec_pattern() -> Seq<char> {
    "^((?<fill>.)?(?<align>[<>^]))??(?<sign>[+-])?(?<is_alternate>#)?(?<is_zero>0)?((?<width_integer>[0-9]+)|((?<width_arg>[a-zA-Z0-9_]+)\\$))?(\\.((?<precision_input>\\*)|(?<precision_integer>[0-9]+)|((?<precision_arg>[a-zA-Z0-9_]+)\\$)))?(?<format_type>[a-zA-Z0-9_]*\\??)$"@
}

/// The names of its groups, in the order in which `FormatSpec::from_captures`
/// takes their texts.
pub open spec fn format_spec_names() -> Seq<Seq<char>> {
    seq![
        "fill"@,
        "align"@,
        "sign"@,
        "is_alternate"@,
        "is_zero"@,
        "width_integer"@,
        "width_arg"@,
        "precision_input"@,
        "precision_integer"@,
        "precision_arg"@,
        "format_type"@,
    ]
}

/// The text of the group `i`, where it took part in the match.
pub open spec fn group(caps: Seq<Option<Seq<char>>>, i: int) -> Option<Seq<char>> {
    if 0 <= i < caps.len() {
        caps[i]
    } else {
        None
    }
}

/// A width or precision from the texts of its groups: a number (`None`
/// where its text is no `usize`), else an argument (its index where its text
/// is a `usize`, else its name), else `*`, else none.
pub open spec fn spec_count(number: Option<Seq<char>>, arg: Option<Seq<char>>, input: bool) -> Option<Option<SubArgView>> {
    match number {
        Some(t) => match crate::num::spec_parse_int(t, 0, usize::MAX as int) {
            Some(v) => Some(Some(SubArgView::Value(v as usize))),
            None => None,
        },
        None => match arg {
            Some(t) => Some(Some(match crate::num::spec_parse_int(t, 0, usize::MAX as int) {
                Some(v) => SubArgView::Index(v as usize),
                None => SubArgView::Name(t),
            })),
            None => if input {
                Some(Some(SubArgView::Input))
            } else {
                Some(None)
            },
        },
    }
}

/// The specifier that the texts of the groups of a match describe (see
/// `format_spec_names`); `None` where a number does not fit in `usize` or
/// the format type is none of those `std` knows.
pub open spec fn spec_format_spec_of(caps: Seq<Option<Seq<char>>>) -> Option<FormatSpecView> {
    match (
        spec_count(group(caps, 5), group(caps, 6), false),
        spec_count(group(caps, 8), group(caps, 9), group(caps, 7) is Some),
        spec_format_type_of(
            match group(caps, 10) {
                Some(t) => t,
                None => seq![],
            },
        ),
    ) {
        (Some(width), Some(precision), Some(format_type)) => Some(
            FormatSpecView {
                fill: match group(caps, 0) {
                    Some(t) => if t.len() > 0 {
                        Some(t[0])
                    } else {
                        None
                    },
                    None => None,
                },
                align: match group(caps, 1) {
                    Some(t) => if t.len() > 0 {
                        Some(spec_align_of(t[0]))
                    } else {
                        None
                    },
                    None => None,
                },
                sign: match group(caps, 2) {
                    Some(t) => Some(if t.len() > 0 && t[0] == '+' { Sign::Plus } else { Sign::Minus }),
                    None => None,
                },
                is_alternate: group(caps, 3) is Some,
                is_zero: group(caps, 4) is Some,
                width,
                precision,
                format_type,
            },
        ),
        _ => None,
    }
}

/// The plain specifier: no fill, alignment, sign, flag, width or
/// precision, and `Display`.
pub open spec fn plain_format_spec_view() -> FormatSpecView {
    FormatSpecView {
        fill: None,
        align: None,
        sign: None,
        is_alternate: false,
        is_zero: false,
        width: None,
        precision: None,
        format_type: FormatType::Display,
    }
}

/// What `FormatSpec::parse` makes of a specifier; `None` where it fails.
/// The empty specifier is the plain one (the pattern matches it with no
/// group but the empty format type); any other is read from the groups of
/// the match of `format_spec_pattern`, and fails where that does not match.
pub open spec fn spec_parse_format_spec(s: Seq<char>) -> Option<FormatSpecView> {
    if s.len() == 0 {
        Some(plain_format_spec_view())
    } else {
        match crate::regex_api::regex_captures(format_spec_pattern(), format_spec_names(), s) {
            Some(Some(caps)) => spec_format_spec_of(caps),
            _ => None,
        }
    }
}

/// The value of the decimal digits `s[from..to]`.
pub open spec fn digits_value(s: Seq<char>, from: int, to: int) -> nat
    decreases to - from,
{
    if to <= from {
        0
    } else {
        digits_value(s, from, to - 1) * 10 + ((s[to - 1] as u32) - ('0' as u32)) as nat
    }
}

pub open spec fn spec_align_of(c: char) -> Align {
    if c == '<' {
        Align::Left
    } else if c == '>' {
        Align::Right
    } else {
        Align::Center
    }
}

} // verus!

verus! {

/// The value of a run of digits is at least that of any run it extends.
pub proof fn lemma_digits_value_grows(s: Seq<char>, from: int, to: int)
    requires
        from <= to,
        forall|j: int| from <= j < to ==> is_digit(#[trigger] s[j]),
    ensures
        forall|k: int| from <= k <= to ==> digits_value(s, from, k) <= digits_value(s, from, to),
    decreases to - from,
{
    if to > from {
        lemma_digits_value_grows(s, from, to - 1);
    }
}

fn exec_format_type(c: &Vec<char>, from: usize) -> (r: Option<FormatType>)
    requires
        from <= c.len(),
    ensures
        r == spec_format_type_of(c@.skip(from as int)),
{
    let n = c.len() - from;
    if n == 0 {
        Some(FormatType::Display)
    } else if n == 1 {
        let x = c[from];
        if x == '?' {
            Some(FormatType::Debug)
        } else if x == 'o' {
            Some(FormatType::Octal)
        } else if x == 'x' {
            Some(FormatType::LowerHex)
        } else if x == 'X' {
            Some(FormatType::UpperHex)
        } else if x == 'p' {
            Some(FormatType::Pointer)
        } else if x == 'b' {
            Some(FormatType::Binary)
        } else if x == 'e' {
            Some(FormatType::LowerExp)
        } else if x == 'E' {
            Some(FormatType::UpperExp)
        } else {
            None
        }
    } else if n == 2 && c[from + 1] == '?' && c[from] == 'x' {
        Some(FormatType::DebugLowerHex)
    } else if n == 2 && c[from + 1] == '?' && c[from] == 'X' {
        Some(FormatType::DebugUpperHex)
    } else {
        None
    }
}

/// A copy of a text.
fn text(t: &str) -> (r: String)
    ensures
        r@ == t@,
{
    let mut s = String::new();
    crate::util::push_str(&mut s, t);
    s
}

/// The width or precision from the texts of its groups.
fn count(number: &Option<String>, arg: &Option<String>, input: bool) -> (r: Option<Option<SubArg>>)
    ensures
        match r {
            Some(x) => spec_count(opt_text_view(*number), opt_text_view(*arg), input) == Some(opt_sub_arg_view(x)),
            None => spec_count(opt_text_view(*number), opt_text_view(*arg), input) is None,
        },
{
    let max: i128 = usize::MAX as i128;
    match number {
        Some(t) => {
            let c = chars_of(t.as_str());
            match crate::field_key::parse_int_chars(&c, 0, max) {
                Some(v) => Some(Some(SubArg::Value(v as usize))),
                None => None,
            }
        },
        None => match arg {
            Some(t) => {
                let c = chars_of(t.as_str());
                Some(Some(match crate::field_key::parse_int_chars(&c, 0, max) {
                    Some(v) => SubArg::Index(v as usize),
                    None => SubArg::Name(t.clone()),
                }))
            },
            None => if input {
                Some(Some(SubArg::Input))
            } else {
                Some(None)
            },
        },
    }
}

pub open spec fn opt_text_view(o: Option<String>) -> Option<Seq<char>> {
    match o {
        Some(t) => Some(t@),
        None => None,
    }
}

/// The text of the group `i`.
fn group_exec(caps: &Vec<Option<String>>, i: usize) -> (r: Option<String>)
    ensures
        opt_text_view(r) == group(crate::regex_api::opt_strings_view(caps@), i as int),
{
    if i < caps.len() {
        match &caps[i] {
            Some(t) => Some(t.clone()),
            None => None,
        }
    } else {
        None
    }
}

impl FormatSpec {
    /// The specifier that the texts of the groups of a match of
    /// `format_spec_pattern` describe, by the names of `format_spec_names`.
    pub fn from_captures(caps: &Vec<Option<String>>) -> (r: Result<FormatSpec, FormatParseError>)
        ensures
            match r {
                Ok(f) => spec_format_spec_of(crate::regex_api::opt_strings_view(caps@)) == Some(f@),
                Err(_) => spec_format_spec_of(crate::regex_api::opt_strings_view(caps@)) is None,
            },
    {
        let width = match count(&group_exec(caps, 5), &group_exec(caps, 6), false) {
            Some(w) => w,
            None => return Err(FormatParseError),
        };
        let input = group_exec(caps, 7).is_some();
        let precision = match count(&group_exec(caps, 8), &group_exec(caps, 9), input) {
            Some(p) => p,
            None => return Err(FormatParseError),
        };
        let ty = match group_exec(caps, 10) {
            Some(t) => chars_of(t.as_str()),
            None => Vec::new(),
        };
        assert(ty@.skip(0) =~= ty@);
        let format_type = match exec_format_type(&ty, 0) {
            Some(t) => t,
            None => return Err(FormatParseError),
        };
        let fill = match group_exec(caps, 0) {
            Some(t) => {
                let c = chars_of(t.as_str());
                if c.len() > 0 {
                    Some(c[0])
                } else {
                    None
                }
            },
            None => None,
        };
        let align = match group_exec(caps, 1) {
            Some(t) => {
                let c = chars_of(t.as_str());
                if c.len() > 0 {
                    Some(if c[0] == '<' {
                        Align::Left
                    } else if c[0] == '>' {
                        Align::Right
                    } else {
                        Align::Center
                    })
                } else {
                    None
                }
            },
            None => None,
        };
        let sign = match group_exec(caps, 2) {
            Some(t) => {
                let c = chars_of(t.as_str());
                Some(if c.len() > 0 && c[0] == '+' {
                    Sign::Plus
                } else {
                    Sign::Minus
                })
            },
            None => None,
        };
        Ok(FormatSpec {
            fill,
            align,
            sign,
            is_alternate: group_exec(caps, 3).is_some(),
            is_zero: group_exec(caps, 4).is_some(),
            width,
            precision,
            format_type,
        })
    }

    /// Parses a format specifier (the text after `:` in `{arg:spec}`) with
    /// the regular expression `format_spec_pattern`.
    pub fn parse(s: &str) -> (r: Result<FormatSpec, FormatParseError>)
        ensures
            match r {
                Ok(f) => spec_parse_format_spec(s@) == Some(f@),
                Err(_) => spec_parse_format_spec(s@) is None,
            },
    {
        if s.unicode_len() == 0 {
            return Ok(FormatSpec {
                fill: None,
                align: None,
                sign: None,
                is_alternate: false,
                is_zero: false,
                width: None,
                precision: None,
                format_type: FormatType::Display,
            });
        }
        let pattern = "^((?<fill>.)?(?<align>[<>^]))??(?<sign>[+-])?(?<is_alternate>#)?(?<is_zero>0)?((?<width_integer>[0-9]+)|((?<width_arg>[a-zA-Z0-9_]+)\\$))?(\\.((?<precision_input>\\*)|(?<precision_integer>[0-9]+)|((?<precision_arg>[a-zA-Z0-9_]+)\\$)))?(?<format_type>[a-zA-Z0-9_]*\\??)$";
        let names: Vec<String> = vec![
            text("fill"),
            text("align"),
            text("sign"),
            text("is_alternate"),
            text("is_zero"),
            text("width_integer"),
            text("width_arg"),
            text("precision_input"),
            text("precision_integer"),
            text("precision_arg"),
            text("format_type"),
        ];
        assert(crate::regex_api::strings_view(names@) =~= format_spec_names());
        match crate::regex_api::captures(pattern, &names, s) {
            Some(Some(caps)) => FormatSpec::from_captures(&caps),
            _ => Err(FormatParseError),
        }
    }
}

} // verus!
