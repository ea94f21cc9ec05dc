//! Styles of variant names: `#[display(style = "...")]`.
use vstd::prelude::*;
use crate::chars::{
    is_alphanumeric, is_ascii_upper, is_ascii_digit, spec_to_lower, spec_to_upper,
    to_ascii_lower, to_ascii_upper, char_alphanumeric,
};
use crate::util::{chars_of, push_char, push_str, str_eq};

verus! {

/// How a variant name is written.
#[derive(Clone, Copy, PartialEq, Eq, Structural, Debug)]
pub enum DisplayStyle {
    NoChange,
    LowerCase,
    UpperCase,
    LowerSnakeCase,
    UpperSnakeCase,
    LowerCamelCase,
    UpperCamelCase,
    LowerKebabCase,
    UpperKebabCase,
    TitleCase,
    TitleCaseHead,
    TitleCaseLower,
    TitleCaseUpper,
}

/// The style that a name of `#[display(style = "...")]` selects.
pub open spec fn spec_style_of(s: Seq<char>) -> Option<DisplayStyle> {
    if s == "none"@ {
        Some(DisplayStyle::NoChange)
    } else if s == "lowercase"@ {
        Some(DisplayStyle::LowerCase)
    } else if s == "UPPERCASE"@ {
        Some(DisplayStyle::UpperCase)
    } else if s == "snake_case"@ {
        Some(DisplayStyle::LowerSnakeCase)
    } else if s == "SNAKE_CASE"@ {
        Some(DisplayStyle::UpperSnakeCase)
    } else if s == "camelCase"@ {
        Some(DisplayStyle::LowerCamelCase)
    } else if s == "CamelCase"@ {
        Some(DisplayStyle::UpperCamelCase)
    } else if s == "kebab-case"@ {
        Some(DisplayStyle::LowerKebabCase)
    } else if s == "KEBAB-CASE"@ {
        Some(DisplayStyle::UpperKebabCase)
    } else if s == "Title Case"@ {
        Some(DisplayStyle::TitleCase)
    } else if s == "Title case"@ {
        Some(DisplayStyle::TitleCaseHead)
    } else if s == "title case"@ {
        Some(DisplayStyle::TitleCaseLower)
    } else if s == "TITLE CASE"@ {
        Some(DisplayStyle::TitleCaseUpper)
    } else {
        None
    }
}

/// The case rules of a style other than `None`: the case of the first letter,
/// of the first letter of each further word, of the other letters, and the
/// separator put before each further word.
pub struct CaseRules {
    pub line_head: bool,
    pub word_head: bool,
    pub normal: bool,
    pub sep: Seq<char>,
}

pub open spec fn case_rules(style: DisplayStyle) -> CaseRules {
    match style {
        DisplayStyle::NoChange => CaseRules { line_head: false, word_head: false, normal: false, sep: seq![] },
        DisplayStyle::LowerCase => CaseRules { line_head: false, word_head: false, normal: false, sep: seq![] },
        DisplayStyle::UpperCase => CaseRules { line_head: true, word_head: true, normal: true, sep: seq![] },
        DisplayStyle::LowerSnakeCase => CaseRules { line_head: false, word_head: false, normal: false, sep: seq!['_'] },
        DisplayStyle::UpperSnakeCase => CaseRules { line_head: true, word_head: true, normal: true, sep: seq!['_'] },
        DisplayStyle::LowerCamelCase => CaseRules { line_head: false, word_head: true, normal: false, sep: seq![] },
        DisplayStyle::UpperCamelCase => CaseRules { line_head: true, word_head: true, normal: false, sep: seq![] },
        DisplayStyle::LowerKebabCase => CaseRules { line_head: false, word_head: false, normal: false, sep: seq!['-'] },
        DisplayStyle::UpperKebabCase => CaseRules { line_head: true, word_head: true, normal: true, sep: seq!['-'] },
        DisplayStyle::TitleCase => CaseRules { line_head: true, word_head: true, normal: false, sep: seq![' '] },
        DisplayStyle::TitleCaseUpper => CaseRules { line_head: true, word_head: true, normal: true, sep: seq![' '] },
        DisplayStyle::TitleCaseLower => CaseRules { line_head: false, word_head: false, normal: false, sep: seq![' '] },
        DisplayStyle::TitleCaseHead => CaseRules { line_head: true, word_head: false, normal: false, sep: seq![' '] },
    }
}

/// The state of the conversion after a prefix of the name: whether no letter
/// was written yet, whether the next letter starts a word, the last letter
/// or digit seen, and the text written.
pub struct CaseState {
    pub is_line_head: bool,
    pub is_word_head: bool,
    pub last: char,
    pub out: Seq<char>,
}

pub open spec fn convert_case(c: char, to_upper: bool) -> char {
    if to_upper {
        spec_to_upper(c)
    } else {
        spec_to_lower(c)
    }
}

/// One character of the name: characters that are neither alphanumeric nor
/// ASCII digits are dropped and start a new word; an upper-case letter after a
/// character that is not one starts a new word too.
pub open spec fn case_step(r: CaseRules, st: CaseState, c: char) -> CaseState {
    if !char_alphanumeric(c) && !is_ascii_digit(c) {
        CaseState { is_word_head: true, ..st }
    } else {
        let word_head = st.is_word_head || (!is_ascii_upper(st.last) && is_ascii_upper(c));
        let (to_upper, sep) = if st.is_line_head {
            (r.line_head, Seq::<char>::empty())
        } else if word_head {
            (r.word_head, r.sep)
        } else {
            (r.normal, Seq::<char>::empty())
        };
        CaseState {
            is_line_head: false,
            is_word_head: false,
            last: c,
            out: st.out + sep + seq![convert_case(c, to_upper)],
        }
    }
}

pub open spec fn case_fold(r: CaseRules, s: Seq<char>) -> CaseState
    decreases s.len(),
{
    if s.len() == 0 {
        CaseState { is_line_head: true, is_word_head: true, last: '\0', out: seq![] }
    } else {
        case_step(r, case_fold(r, s.drop_last()), s.last())
    }
}

/// The name `s` written in `style`.
pub open spec fn spec_apply_style(style: DisplayStyle, s: Seq<char>) -> Seq<char> {
    if style == DisplayStyle::NoChange {
        s
    } else {
        case_fold(case_rules(style), s).out
    }
}

struct ExecRules {
    line_head: bool,
    word_head: bool,
    normal: bool,
    sep: &'static str,
}

fn exec_rules(style: DisplayStyle) -> (r: ExecRules)
    requires
        style != DisplayStyle::NoChange,
    ensures
        r.line_head == case_rules(style).line_head,
        r.word_head == case_rules(style).word_head,
        r.normal == case_rules(style).normal,
        r.sep@ == case_rules(style).sep,
{
    proof {
        reveal_strlit("");
        reveal_strlit("_");
        reveal_strlit("-");
        reveal_strlit(" ");
    }
    match style {
        DisplayStyle::NoChange => ExecRules { line_head: false, word_head: false, normal: false, sep: "" },
        DisplayStyle::LowerCase => ExecRules { line_head: false, word_head: false, normal: false, sep: "" },
        DisplayStyle::UpperCase => ExecRules { line_head: true, word_head: true, normal: true, sep: "" },
        DisplayStyle::LowerSnakeCase => ExecRules { line_head: false, word_head: false, normal: false, sep: "_" },
        DisplayStyle::UpperSnakeCase => ExecRules { line_head: true, word_head: true, normal: true, sep: "_" },
        DisplayStyle::LowerCamelCase => ExecRules { line_head: false, word_head: true, normal: false, sep: "" },
        DisplayStyle::UpperCamelCase => ExecRules { line_head: true, word_head: true, normal: false, sep: "" },
        DisplayStyle::LowerKebabCase => ExecRules { line_head: false, word_head: false, normal: false, sep: "-" },
        DisplayStyle::UpperKebabCase => ExecRules { line_head: true, word_head: true, normal: true, sep: "-" },
        DisplayStyle::TitleCase => ExecRules { line_head: true, word_head: true, normal: false, sep: " " },
        DisplayStyle::TitleCaseUpper => ExecRules { line_head: true, word_head: true, normal: true, sep: " " },
        DisplayStyle::TitleCaseLower => ExecRules { line_head: false, word_head: false, normal: false, sep: " " },
        DisplayStyle::TitleCaseHead => ExecRules { line_head: true, word_head: false, normal: false, sep: " " },
    }
}

impl DisplayStyle {
    /// The style named by `s`; `None` where `s` names none.
    pub fn parse(s: &str) -> (r: Option<DisplayStyle>)
        ensures
            r == spec_style_of(s@),
    {
        if str_eq(s, "none") {
            Some(DisplayStyle::NoChange)
        } else if str_eq(s, "lowercase") {
            Some(DisplayStyle::LowerCase)
        } else if str_eq(s, "UPPERCASE") {
            Some(DisplayStyle::UpperCase)
        } else if str_eq(s, "snake_case") {
            Some(DisplayStyle::LowerSnakeCase)
        } else if str_eq(s, "SNAKE_CASE") {
            Some(DisplayStyle::UpperSnakeCase)
        } else if str_eq(s, "camelCase") {
            Some(DisplayStyle::LowerCamelCase)
        } else if str_eq(s, "CamelCase") {
            Some(DisplayStyle::UpperCamelCase)
        } else if str_eq(s, "kebab-case") {
            Some(DisplayStyle::LowerKebabCase)
        } else if str_eq(s, "KEBAB-CASE") {
            Some(DisplayStyle::UpperKebabCase)
        } else if str_eq(s, "Title Case") {
            Some(DisplayStyle::TitleCase)
        } else if str_eq(s, "Title case") {
            Some(DisplayStyle::TitleCaseHead)
        } else if str_eq(s, "title case") {
            Some(DisplayStyle::TitleCaseLower)
        } else if str_eq(s, "TITLE CASE") {
            Some(DisplayStyle::TitleCaseUpper)
        } else {
            None
        }
    }

    /// The variant name `ident` written in this style.
    pub fn apply(self, ident: &str) -> (r: String)
        ensures
            r@ == spec_apply_style(self, ident@),
    {
        if self == DisplayStyle::NoChange {
            let mut s = String::new();
            push_str(&mut s, ident);
            assert(s@ =~= ident@);
            return s;
        }
        let rules = exec_rules(self);
        let ghost r = case_rules(self);
        let c = chars_of(ident);
        let mut is_line_head = true;
        let mut is_word_head = true;
        let mut last = '\0';
        let mut out = String::new();
        let mut i: usize = 0;
        while i < c.len()
            invariant
                i <= c.len(),
                c@ == ident@,
                r == case_rules(self),
                rules.line_head == r.line_head,
                rules.word_head == r.word_head,
                rules.normal == r.normal,
                rules.sep@ == r.sep,
                case_fold(r, c@.take(i as int)) == (CaseState {
                    is_line_head,
                    is_word_head,
                    last,
                    out: out@,
                }),
            decreases c.len() - i,
        {
            let ch = c[i];
            proof {
                assert(c@.take(i + 1).drop_last() =~= c@.take(i as int));
                assert(c@.take(i + 1).last() == ch);
            }
            let alnum = is_alphanumeric(ch);
            if !alnum && !('0' <= ch && ch <= '9') {
                is_word_head = true;
            } else {
                is_word_head = is_word_head || (!('A' <= last && last <= 'Z') && ('A' <= ch && ch
                    <= 'Z'));
                last = ch;
                let to_upper;
                if is_line_head {
                    to_upper = rules.line_head;
                } else if is_word_head {
                    to_upper = rules.word_head;
                    push_str(&mut out, rules.sep);
                } else {
                    to_upper = rules.normal;
                }
                let converted = if to_upper {
                    to_ascii_upper(ch)
                } else {
                    to_ascii_lower(ch)
                };
                push_char(&mut out, converted);
                is_word_head = false;
                is_line_head = false;
                proof {
                    let ghost st = case_fold(r, c@.take(i as int));
                    assert(out@ =~= case_step(r, st, ch).out);
                }
            }
            i += 1;
        }
        assert(c@.take(c@.len() as int) =~= c@);
        out
    }
}

} // verus!
