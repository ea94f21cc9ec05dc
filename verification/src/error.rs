//! Errors: of parsing text (`ParseError`), and of type definitions whose
//! attributes cannot be turned into `Display` or `FromStr` (`DeriveError`).
use vstd::prelude::*;
use crate::util::push_str;

verus! {

/// The error returned where a text does not parse.
#[derive(Debug, Eq, PartialEq)]
pub struct ParseError {
    message: String,
}

impl ParseError {
    /// An error with the given message.
    pub fn with_message(message: &str) -> (r: ParseError)
        ensures
            r.message()@ == message@,
    {
        let mut s = String::new();
        push_str(&mut s, message);
        ParseError { message: s }
    }

    /// An error with the message `parse failed.`.
    pub fn new() -> (r: ParseError)
        ensures
            r.message()@ == "parse failed."@,
    {
        ParseError::with_message("parse failed.")
    }

    pub closed spec fn message(&self) -> String {
        self.message
    }

    /// The message of the error (what `Display` writes).
    pub fn to_string(&self) -> (r: String)
        ensures
            r@ == self.message()@,
    {
        self.message.clone()
    }
}

impl Default for ParseError {
    fn default() -> (r: ParseError)
        ensures
            r.message()@ == "parse failed."@,
    {
        ParseError::new()
    }
}

/// Why the attributes of a type give no `Display` or `FromStr`.
#[derive(Debug, PartialEq, Eq, Clone, Copy, Structural)]
pub enum DeriveError {
    /// A format string of `#[display("...")]` does not parse.
    InvalidDisplayFormat,
    /// A format specifier (after `:`) does not parse.
    InvalidFormatSpec,
    /// `#[display(style = "...")]` names no style.
    InvalidStyle,
    /// A struct without a format is not a newtype, or a variant without a
    /// format has fields.
    FormatRequired,
    /// `{}` in the format of a struct.
    EmptyArgInStruct,
    /// A format or a regular expression names a field that does not exist.
    UnknownField,
    /// A field appears neither in the format nor as a field with a default.
    FieldNotInFormat,
    /// `(?<>)` in the regular expression of a struct.
    EmptyCaptureInStruct,
    /// A regular expression does not compile, or a group in it is not
    /// closed.
    InvalidRegex,
    /// The format of a field names, through the formats of other fields,
    /// the field itself.
    RecursiveFormat,
    /// `#[from_str(default)]` on an enum.
    DefaultOnEnum,
    /// An argument of `#[display(...)]` or `#[from_str(...)]` that the
    /// attribute does not take, or that no attribute takes.
    InvalidAttribute,
    /// `{:?}`, `{:x}` or another trait than `Display` on the value itself,
    /// where the caller gave no text that the type's own impl of that trait
    /// writes for the specifier.
    OwnTextMissing,
    /// A width or precision taken from another argument (`{:1$}`, `{:w$}`,
    /// `{:.*}`): the arguments of the derived format are references to the
    /// fields, which such a count cannot take, so the format is refused.
    CountFromArgument,
    /// A field with `with = ...` named with a format specifier of another
    /// trait than `Display` (such as `{:x}`).
    WithFormatType,
    /// A field of `#[display(opt)]` used in a `FromStr` format without a
    /// pattern of its own (`regex`, `regex_infer`, `with` or a format), so
    /// that the empty text would parse as `Some`, never as `None`.
    OptWithoutPattern,
    /// A field value or type that cannot be written or parsed as asked (a
    /// record or a list without a format for it, a delimiter on a field that
    /// is no list, a negative number in hexadecimal that its type does not
    /// hold, a pointer by another trait than `Pointer` or `Debug`, a value
    /// by `Pointer` that is no pointer, or an `Option` value where the field
    /// has no `opt` and none where it has).
    Unsupported,
}

} // verus!
