//! The calls into the `regex` and `regex-syntax` crates: escaping literal
//! text, and matching a regular expression with named capture groups.
use vstd::prelude::*;

verus! {

/// The characters that `regex_syntax::is_meta_character` reports: those that
/// have a meaning in a regular expression.
pub open spec fn is_meta(c: char) -> bool {
    c == '\\' || c == '.' || c == '+' || c == '*' || c == '?' || c == '(' || c == ')' || c == '|'
        || c == '[' || c == ']' || c == '{' || c == '}' || c == '^' || c == '$' || c == '#' || c
        == '&' || c == '-' || c == '~'
}

/// `s` with a backslash before each meta character: a regular expression
/// that matches `s` itself.
pub open spec fn spec_escape_regex(s: Seq<char>) -> Seq<char>
    decreases s.len(),
{
    if s.len() == 0 {
        seq![]
    } else {
        spec_escape_regex(s.drop_last()) + (if is_meta(s.last()) {
            seq!['\\', s.last()]
        } else {
            seq![s.last()]
        })
    }
}

/// `regex_syntax::escape`: the text with a backslash before each of its meta
/// characters, as `escape_into` of that crate writes it.
#[verifier::external_body]
pub(crate) fn escape(text: &str) -> (r: String)
    ensures
        r@ == spec_escape_regex(text@),
{
    regex_syntax::escape(text)
}

/// Whether the syntax parser of the `regex-syntax` crate
/// (`ast::parse::Parser::parse`) accepts `pattern`.
pub uninterp spec fn regex_syntax_accepts(pattern: Seq<char>) -> bool;

/// `regex_syntax::ast::parse::Parser::new().parse(pattern)`: whether the
/// pattern parses. The contract names the result; the grammar of regular
/// expressions that the parser accepts is not stated.
#[verifier::external_body]
pub(crate) fn parses_as_regex(pattern: &str) -> (r: bool)
    ensures
        r == regex_syntax_accepts(pattern@),
{
    regex_syntax::ast::parse::Parser::new().parse(pattern).is_ok()
}

/// What the `regex` crate makes of the pattern `pattern` and the text
/// `input`: `None` where the pattern does not compile; `Some(None)` where it
/// does not match; else, for each name of `names`, the text that the group of
/// that name captured in the first match (`None` where the pattern has no
/// such group or the group took no part in the match).
pub uninterp spec fn regex_captures(pattern: Seq<char>, names: Seq<Seq<char>>, input: Seq<char>) -> Option<Option<Seq<Option<Seq<char>>>>>;

pub open spec fn strings_view(v: Seq<String>) -> Seq<Seq<char>> {
    v.map_values(|s: String| s@)
}

pub open spec fn opt_strings_view(v: Seq<Option<String>>) -> Seq<Option<Seq<char>>> {
    v.map_values(|s: Option<String>| match s {
        Some(t) => Some(t@),
        None => None,
    })
}

pub open spec fn captures_view(r: Option<Option<Vec<Option<String>>>>) -> Option<Option<Seq<Option<Seq<char>>>>> {
    match r {
        None => None,
        Some(None) => Some(None),
        Some(Some(c)) => Some(Some(opt_strings_view(c@))),
    }
}

/// Compiles `pattern` with `regex::Regex::new` and matches it against
/// `input` with `Regex::captures`; for each name, `Captures::name` gives the
/// text of its group. The contract claims only that the result is
/// `regex_captures` of the arguments: the regular expression language and the
/// leftmost-first search of the `regex` crate are not stated.
#[verifier::external_body]
pub(crate) fn captures(pattern: &str, names: &Vec<String>, input: &str) -> (r: Option<Option<Vec<Option<String>>>>)
    ensures
        captures_view(r) == regex_captures(pattern@, strings_view(names@), input@),
{
    let re = match regex::Regex::new(pattern) {
        Ok(re) => re,
        Err(_) => return None,
    };
    Some(re.captures(input).map(|c| names.iter().map(|n| c.name(n).map(|m| m.as_str().to_string())).collect()))
}

} // verus!
