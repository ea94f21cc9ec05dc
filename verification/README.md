# parse_display

Display and parse values of structs and enums by format strings and regular
expressions attached to them as attributes (`#[display(...)]` and
`#[from_str(...)]`), verified with Verus.

A type is described by plain values (`def::StructDef`, `def::EnumDef`: its
fields, their types and the attributes `#[display(...)]` and
`#[from_str(...)]`), and its values by `value::Value`. `StructDef::display`
and `EnumDef::display` write a value; `StructDef::from_str` and
`EnumDef::from_str` parse a text. Both state their results over the
mathematical models in their contracts, and `laws` proves what they do
together.

- `src/` the verified library: the arguments of the helper attributes
  (`attrs`), format strings (`format`), format specifiers
  (`format_spec`), styles of variant names (`style`), writing values
  (`render`, `display`), the parser of `FromStr` (`from_str`), the formats
  `Fmt`, `Join` and `RegexInfer` that fields name with `with = ...` or
  `regex_infer` (`formats`), and the calls into `regex` and `regex-syntax`
  (`regex_api`).
- `tests/` the tests.
- `app/` reads a struct or an enum, as Rust source, into the definitions of
  the library.
