//! What the styles of `#[display(style = "...")]` do to a variant name,
//! stated by how one more character of the name changes the result, and what
//! a field that is not read from the text holds.
use vstd::prelude::*;
use crate::chars::{char_alphanumeric, is_ascii_alnum, is_ascii_digit, is_ascii_lower, is_ascii_upper, spec_to_lower, spec_to_upper};
use crate::style::{case_fold, case_rules, spec_apply_style, DisplayStyle};
use crate::value::{default_record, int_min, spec_default_value, TypeView, ValueView};

verus! {

/// Whether a style writes the first letter of the name in upper case.
pub open spec fn head_upper(st: DisplayStyle) -> bool {
    match st {
        DisplayStyle::UpperCase | DisplayStyle::UpperSnakeCase | DisplayStyle::UpperCamelCase
        | DisplayStyle::UpperKebabCase | DisplayStyle::TitleCase | DisplayStyle::TitleCaseUpper
        | DisplayStyle::TitleCaseHead => true,
        _ => false,
    }
}

/// Whether a style writes the first letter of each further word in upper
/// case.
pub open spec fn word_upper(st: DisplayStyle) -> bool {
    match st {
        DisplayStyle::UpperCase | DisplayStyle::UpperSnakeCase | DisplayStyle::LowerCamelCase
        | DisplayStyle::UpperCamelCase | DisplayStyle::UpperKebabCase | DisplayStyle::TitleCase
        | DisplayStyle::TitleCaseUpper => true,
        _ => false,
    }
}

/// Whether a style writes the other letters of a word in upper case.
pub open spec fn rest_upper(st: DisplayStyle) -> bool {
    match st {
        DisplayStyle::UpperCase | DisplayStyle::UpperSnakeCase | DisplayStyle::UpperKebabCase
        | DisplayStyle::TitleCaseUpper => true,
        _ => false,
    }
}

/// What a style puts between two words: `_`, `-`, a space, or nothing.
pub open spec fn separator(st: DisplayStyle) -> Seq<char> {
    match st {
        DisplayStyle::LowerSnakeCase | DisplayStyle::UpperSnakeCase => seq!['_'],
        DisplayStyle::LowerKebabCase | DisplayStyle::UpperKebabCase => seq!['-'],
        DisplayStyle::TitleCase | DisplayStyle::TitleCaseHead | DisplayStyle::TitleCaseLower
        | DisplayStyle::TitleCaseUpper => seq![' '],
        _ => seq![],
    }
}

/// `c` in upper case where `upper`, else in lower case (ASCII letters only
/// change).
pub open spec fn cased(c: char, upper: bool) -> char {
    if upper {
        spec_to_upper(c)
    } else {
        spec_to_lower(c)
    }
}

/// After a name that ends in a character that the style keeps, the state of
/// the conversion is inside a word, past the first letter, with that
/// character last.
proof fn lemma_after_kept(st: DisplayStyle, s: Seq<char>)
    requires
        s.len() > 0,
        is_ascii_alnum(s.last()),
    ensures
        !case_fold(case_rules(st), s).is_line_head,
        !case_fold(case_rules(st), s).is_word_head,
        case_fold(case_rules(st), s).last == s.last(),
{
    assert(char_alphanumeric(s.last()));
}

/// The first character of a name, where the style keeps it, is written in
/// the case of the first letter of the style (`snake_case` of `A` is `a`,
/// `CamelCase` of `a` is `A`).
pub proof fn law_style_first_char(st: DisplayStyle, c: char)
    requires
        st != DisplayStyle::NoChange,
        is_ascii_alnum(c),
    ensures
        spec_apply_style(st, seq![c]) == seq![cased(c, head_upper(st))],
{
    let s = seq![c];
    let r = case_rules(st);
    assert(s.drop_last() =~= Seq::<char>::empty());
    assert(s.last() == c);
    assert(char_alphanumeric(c));
    assert(case_fold(r, Seq::<char>::empty()).is_line_head);
    assert(case_fold(r, s) == crate::style::case_step(r, case_fold(r, Seq::<char>::empty()), c));
    assert(r.line_head == head_upper(st));
    assert(Seq::<char>::empty() + Seq::<char>::empty() + seq![cased(c, head_upper(st))] =~= seq![cased(c, head_upper(st))]);
}

/// An ASCII upper-case letter right after another one does not start a new
/// word: it adds no separator and is written in the case of the other
/// letters of a word (`snake_case` of `ABc` is `abc`, `CamelCase` of
/// `HTTPServer` is `Httpserver`).
pub proof fn law_style_upper_run(st: DisplayStyle, s: Seq<char>, c: char)
    requires
        st != DisplayStyle::NoChange,
        s.len() > 0,
        is_ascii_upper(s.last()),
        is_ascii_upper(c),
    ensures
        spec_apply_style(st, s.push(c)) == spec_apply_style(st, s).push(cased(c, rest_upper(st))),
{
    lemma_after_kept(st, s);
    assert(s.push(c).drop_last() =~= s);
    assert(char_alphanumeric(c));
    let o = case_fold(case_rules(st), s).out;
    assert(o + Seq::<char>::empty() + seq![cased(c, rest_upper(st))] =~= o.push(cased(c, rest_upper(st))));
}

/// An ASCII upper-case letter after a lower-case letter or a digit starts a
/// new word: the style's separator goes before it, and it is written in the
/// case of the first letter of a word (`snake_case` of `aB` is `a_b`).
pub proof fn law_style_new_word(st: DisplayStyle, s: Seq<char>, c: char)
    requires
        st != DisplayStyle::NoChange,
        s.len() > 0,
        is_ascii_lower(s.last()) || is_ascii_digit(s.last()),
        is_ascii_upper(c),
    ensures
        spec_apply_style(st, s.push(c)) == spec_apply_style(st, s) + separator(st) + seq![cased(c, word_upper(st))],
{
    lemma_after_kept(st, s);
    assert(s.push(c).drop_last() =~= s);
    assert(char_alphanumeric(c));
}

/// A lower-case letter or a digit after a kept character continues the
/// word: no separator, in the case of the other letters of a word.
pub proof fn law_style_same_word(st: DisplayStyle, s: Seq<char>, c: char)
    requires
        st != DisplayStyle::NoChange,
        s.len() > 0,
        is_ascii_alnum(s.last()),
        is_ascii_lower(c) || is_ascii_digit(c),
    ensures
        spec_apply_style(st, s.push(c)) == spec_apply_style(st, s).push(cased(c, rest_upper(st))),
{
    lemma_after_kept(st, s);
    assert(s.push(c).drop_last() =~= s);
    assert(char_alphanumeric(c));
    let o = case_fold(case_rules(st), s).out;
    assert(o + Seq::<char>::empty() + seq![cased(c, rest_upper(st))] =~= o.push(cased(c, rest_upper(st))));
}

/// An ASCII character that is neither a letter nor a digit (such as `_`) is
/// dropped and the kept character after it starts a new word (`snake_case`
/// of `a_b` is `a_b`, `CamelCase` of `a_b` is `AB`).
pub proof fn law_style_dropped_char(st: DisplayStyle, s: Seq<char>, d: char, c: char)
    requires
        st != DisplayStyle::NoChange,
        s.len() > 0,
        is_ascii_alnum(s.last()),
        (d as u32) < 128,
        !is_ascii_alnum(d),
        is_ascii_alnum(c),
    ensures
        spec_apply_style(st, s.push(d)) == spec_apply_style(st, s),
        spec_apply_style(st, s.push(d).push(c)) == spec_apply_style(st, s) + separator(st) + seq![cased(c, word_upper(st))],
{
    lemma_after_kept(st, s);
    assert(s.push(d).drop_last() =~= s);
    assert(s.push(d).push(c).drop_last() =~= s.push(d));
    assert(!char_alphanumeric(d));
    assert(!is_ascii_digit(d));
    assert(char_alphanumeric(c));
}

/// A field that is not read from the text takes `Default::default()` of its
/// type: zero of its integer kind, `false`, `'\0'`, the empty text, the
/// empty list, the null pointer, or, for a record, the default of each
/// member under its key.
pub proof fn law_default_value(t: TypeView)
    ensures
        match t {
            TypeView::Int(k) => spec_default_value(t) == if int_min(k) < 0 {
                ValueView::Int(0)
            } else {
                ValueView::UInt(0)
            },
            TypeView::Bool => spec_default_value(t) == ValueView::Bool(false),
            TypeView::Char => spec_default_value(t) == ValueView::Char('\0'),
            TypeView::Str => spec_default_value(t) == ValueView::Str(seq![]),
            TypeView::List(_) => spec_default_value(t) == ValueView::List(seq![]),
            TypeView::Pointer => spec_default_value(t) == ValueView::Pointer(0),
            TypeView::Record(fs) => spec_default_value(t) matches ValueView::Record(vs) && vs.len() == fs.len()
                && forall|i: int| 0 <= i < fs.len() ==> #[trigger] vs[i] == (fs[i].0, spec_default_value(fs[i].1)),
        },
{
    if let TypeView::Record(fs) = t {
        lemma_default_record(fs);
    }
}

proof fn lemma_default_record(fs: Seq<(crate::field_key::KeyView, TypeView)>)
    ensures
        default_record(fs).len() == fs.len(),
        forall|i: int| 0 <= i < fs.len() ==> #[trigger] default_record(fs)[i] == (fs[i].0, spec_default_value(fs[i].1)),
    decreases fs.len(),
{
    if fs.len() > 0 {
        lemma_default_record(fs.drop_last());
        assert forall|i: int| 0 <= i < fs.len() implies #[trigger] default_record(fs)[i] == (fs[i].0, spec_default_value(fs[i].1)) by {
            if i < fs.len() - 1 {
                assert(default_record(fs)[i] == default_record(fs.drop_last())[i]);
            }
        }
    }
}

/// A field that the text gives no group, and that is no `Option`, holds the
/// default of its type when the text is parsed (`b` of
/// `#[display("{a}")] #[from_str(default)] struct S { a: u32, b: bool }`
/// is `false`).
pub proof fn law_unread_field_default(
    f: crate::def::FieldDef,
    e: crate::from_str::EntryView,
    caps: Seq<Option<Seq<char>>>,
)
    requires
        !f.attrs.opt,
        e.capture is None,
        e.deep.len() == 0,
    ensures
        crate::from_str::spec_field_value(f, e, caps) == Ok::<ValueView, Seq<char>>(spec_default_value(crate::value::type_view(f.ty))),
{
}

} // verus!
