use parse_display::error::DeriveError;
use parse_display::error::ParseError;
use parse_display::formats::{
    delimiter, fmt, join, parse_with, regex_any, regex_f, regex_sint, regex_uint, to_regex, FromStrRegex,
    IntoResult, OptionFormatHelper, RegexForFromStr, RegexInfer,
};
use parse_display::def::{Attrs, EnumDef, FieldDef, FieldsKind, StructDef, VariantDef, WithFormat};
use parse_display::field_key::FieldKey;
use parse_display::value::{IntKind, Value, ValueType};

fn vec_type(item: ValueType) -> ValueType {
    ValueType::List(Box::new(item))
}

fn with_field(i: usize, ty: ValueType, with: WithFormat) -> FieldDef {
    FieldDef { key: FieldKey::Unnamed(i), ty, attrs: Attrs { with: Some(with), ..Default::default() } }
}

fn from_str_with_field(i: usize, ty: ValueType, with: WithFormat) -> FieldDef {
    FieldDef { key: FieldKey::Unnamed(i), ty, attrs: Attrs { from_str_with: Some(with), ..Default::default() } }
}

fn fmt_attrs(f: &str) -> Attrs {
    Attrs { format: Some(f.to_string()), ..Default::default() }
}

fn join_with(d: &str) -> WithFormat {
    WithFormat::Join(d.to_string())
}

fn list_of(v: &[u64]) -> Value {
    Value::List(u32s(v))
}

fn delimiter_newtype(item: ValueType) -> StructDef {
    StructDef {
        attrs: fmt_attrs("{0}"),
        kind: FieldsKind::Unnamed,
        fields: vec![with_field(0, vec_type(item), join_with(", "))],
    }
}

fn delimiter_enum_def() -> EnumDef {
    let v = |name: &str, f: &str| VariantDef {
        name: name.to_string(),
        attrs: fmt_attrs(f),
        kind: FieldsKind::Unnamed,
        fields: vec![with_field(0, vec_type(ValueType::Int(IntKind::U32)), join_with(", "))],
    };
    EnumDef { attrs: Attrs::default(), variants: vec![v("A", "a : {0}"), v("B", "b : {0}")] }
}

fn u32s(v: &[u64]) -> Vec<Value> {
    v.iter().map(|x| Value::UInt(*x as u128)).collect()
}

#[test]
fn display_formats_delimiter_struct() {
    let d = delimiter_newtype(ValueType::Int(IntKind::U32));
    assert_eq!(d.display(&vec![list_of(&[10, 20, 30])]), Ok("10, 20, 30".to_string()));
    assert_eq!(delimiter(", ").write(&u32s(&[10, 20, 30])), Some("10, 20, 30".to_string()));
}

#[test]
fn display_formats_delimiter_enum() {
    let e = delimiter_enum_def();
    assert_eq!(e.display(0, &vec![list_of(&[10, 20, 30])]), Ok("a : 10, 20, 30".to_string()));
    assert_eq!(e.display(1, &vec![list_of(&[10, 20, 30])]), Ok("b : 10, 20, 30".to_string()));
}

#[test]
fn from_str_formats_delimiter_enum() {
    let e = delimiter_enum_def();
    assert_eq!(e.from_str("a : 10, 20, 30"), Ok(Ok((0, vec![list_of(&[10, 20, 30])]))));
    assert_eq!(e.from_str("b : 10, 20, 30"), Ok(Ok((1, vec![list_of(&[10, 20, 30])]))));
}

#[test]
fn delimiter_field_vec() {
    assert_eq!(delimiter(", ").write(&u32s(&[10, 20, 30])), Some("10, 20, 30".to_string()));
}

#[test]
fn delimiter_field_array() {
    assert_eq!(delimiter(", ").write(&u32s(&[10, 20, 30])), Some("10, 20, 30".to_string()));
}

#[test]
fn delimiter_field_slice() {
    assert_eq!(delimiter(", ").write(&u32s(&[10, 20, 30])), Some("10, 20, 30".to_string()));
}

#[test]
fn delimiter_field_dst() {
    assert_eq!(delimiter(", ").write(&u32s(&[10, 20, 30])), Some("10, 20, 30".to_string()));
}

#[test]
fn display_formats_with_and_default_bound() {
    let items: Vec<Value> = vec![Value::Int(10), Value::Int(20), Value::Int(30)];
    assert_eq!(join(fmt(), ", ").write(&items), Some("10, 20, 30".to_string()));
    let d = delimiter_newtype(ValueType::Int(IntKind::I32));
    assert_eq!(d.display(&vec![Value::List(items)]), Ok("10, 20, 30".to_string()));
}

#[test]
fn from_str_formats_delimiter_struct() {
    let r = delimiter(", ").parse(&ValueType::Int(IntKind::U32), "10, 20, 30");
    assert_eq!(r, Ok(u32s(&[10, 20, 30])));
    let d = delimiter_newtype(ValueType::Int(IntKind::U32));
    assert_eq!(d.from_str("10, 20, 30"), Ok(Ok(vec![list_of(&[10, 20, 30])])));
}

#[test]
fn from_str_formats_with_and_default_bound() {
    let r = join(fmt(), ", ").parse(&ValueType::Int(IntKind::I32), "10, 20, 30");
    assert_eq!(r, Ok(vec![Value::Int(10), Value::Int(20), Value::Int(30)]));
    let d = StructDef {
        attrs: Attrs::default(),
        kind: FieldsKind::Unnamed,
        fields: vec![from_str_with_field(0, vec_type(ValueType::Int(IntKind::I32)), join_with(", "))],
    };
    assert_eq!(d.from_str("10, 20, 30"), Ok(Ok(vec![Value::List(vec![Value::Int(10), Value::Int(20), Value::Int(30)])])));
}

#[test]
fn join_edge_cases() {
    assert_eq!(delimiter(", ").write(&vec![]), Some(String::new()));
    assert_eq!(delimiter("-").write(&u32s(&[7])), Some("7".to_string()));
    assert_eq!(delimiter(",").parse(&ValueType::Str, "a,,b"), Ok(vec![
        Value::Str("a".to_string()),
        Value::Str(String::new()),
        Value::Str("b".to_string()),
    ]));
    assert_eq!(delimiter("").parse(&ValueType::Str, "ab"), Ok(vec![
        Value::Str(String::new()),
        Value::Str("a".to_string()),
        Value::Str("b".to_string()),
        Value::Str(String::new()),
    ]));
    assert_eq!(delimiter(",").parse(&ValueType::Int(IntKind::U8), "1,x"), Err(ParseError::new()));
    assert_eq!(delimiter(",").parse(&ValueType::Int(IntKind::U8), "1,300"), Err(ParseError::new()));
}

#[test]
fn join_then_split_gives_the_items_back() {
    let items = u32s(&[1, 22, 333]);
    let d = delimiter("; ");
    let text = d.write(&items).unwrap();
    assert_eq!(d.parse(&ValueType::Int(IntKind::U32), &text), Ok(items));
}

#[test]
fn regexes_of_types() {
    assert_eq!(ValueType::Char.from_str_regex(), Some("(?s:.)".to_string()));
    assert_eq!(ValueType::Str.from_str_regex(), Some("(?s:.*?)".to_string()));
    assert_eq!(ValueType::Bool.from_str_regex(), Some("true|false".to_string()));
    assert_eq!(ValueType::Int(IntKind::U16).from_str_regex(), Some("[0-9]+".to_string()));
    assert_eq!(ValueType::Int(IntKind::I64).from_str_regex(), Some("-?[0-9]+".to_string()));
    assert_eq!(ValueType::Record(vec![]).from_str_regex(), None);
    assert_eq!(ValueType::Int(IntKind::U8).regex_for_from_str(), Some("[0-9]+".to_string()));
    assert_eq!(ValueType::Int(IntKind::I8).regex_for_from_str(), Some("-?[0-9]+".to_string()));
    assert_eq!(ValueType::Str.regex_for_from_str(), None);
    assert_eq!(regex_any(), "(?s:.*?)");
    assert_eq!(regex_uint(), "[0-9]+");
    assert_eq!(regex_sint(), "-?[0-9]+");
    assert_eq!(regex_f(), r"(?i:[+-]?([0-9]+\.?|[0-9]*\.[0-9]+)(e[+-]?[0-9]+)?|[+-]?inf|nan)");
}

#[test]
fn parse_with_formats() {
    assert_eq!(parse_with(&fmt(), &ValueType::Int(IntKind::I8), "-5"), Ok(Value::Int(-5)));
    assert_eq!(parse_with(&RegexInfer, &ValueType::Bool, "true"), Ok(Value::Bool(true)));
    assert_eq!(parse_with(&fmt(), &ValueType::Bool, "yes"), Err(ParseError::new()));
    assert_eq!(to_regex(&fmt(), &ValueType::Bool), None);
    assert_eq!(to_regex(&RegexInfer, &ValueType::Int(IntKind::I32)), Some("-?[0-9]+".to_string()));
}

#[test]
fn option_format_helper() {
    let own = |v: &Value| fmt().write(v);
    let some = OptionFormatHelper { value: Some(Value::UInt(3)), f: own, none_value: "-".to_string() };
    assert_eq!(some.to_string(), Some("3".to_string()));
    let none = OptionFormatHelper { value: None, f: own, none_value: "-".to_string() };
    assert_eq!(none.to_string(), Some("-".to_string()));
    let hex = |v: &Value| match v {
        Value::UInt(n) => Some(format!("{n:#x}")),
        _ => None,
    };
    let by_f = OptionFormatHelper { value: Some(Value::UInt(255)), f: hex, none_value: String::new() };
    assert_eq!(by_f.to_string(), Some("0xff".to_string()));
    let empty = OptionFormatHelper { value: None, f: hex, none_value: String::new() };
    assert_eq!(empty.to_string(), Some(String::new()));
}

#[test]
fn into_result() {
    assert_eq!(Some(5u8).into_result(), Ok(5u8));
    assert_eq!(None::<u8>.into_result(), Err(ParseError::new()));
    let r: Result<u8, ()> = Err(());
    assert_eq!(r.into_result(), Err(()));
}

#[test]
fn parse_error_messages() {
    assert_eq!(ParseError::new().to_string(), "parse failed.");
    assert_eq!(ParseError::with_message("bad").to_string(), "bad");
    assert_eq!(ParseError::default(), ParseError::new());
}

#[test]
fn fmt_from_str_parses_by_the_function() {
    let f = parse_display::formats::fmt_from_str(|s: &str| s.parse::<u32>());
    assert_eq!(f.parse("12"), Ok(12u32));
    assert!(f.parse("x").is_err());
    let g = parse_display::formats::fmt_from_str(|s: &str| if s == "yes" { Ok(true) } else { Err(ParseError::new()) });
    assert_eq!(g.parse("yes"), Ok(true));
    assert_eq!(g.parse("no"), Err(ParseError::new()));
}

#[test]
fn with_fmt_writes_the_value_without_the_specifier() {
    let d = StructDef {
        attrs: fmt_attrs("[{0:>5}]"),
        kind: FieldsKind::Unnamed,
        fields: vec![with_field(0, ValueType::Int(IntKind::U32), WithFormat::Fmt)],
    };
    assert_eq!(d.display(&vec![Value::UInt(10)]), Ok("[10]".to_string()));
    let r = StructDef {
        attrs: fmt_attrs("[{0:>5}]"),
        kind: FieldsKind::Unnamed,
        fields: vec![with_field(0, ValueType::Int(IntKind::U32), WithFormat::RegexInfer)],
    };
    assert_eq!(r.display(&vec![Value::UInt(10)]), Ok("[   10]".to_string()));
    let plain = StructDef {
        attrs: fmt_attrs("[{0:>5}]"),
        kind: FieldsKind::Unnamed,
        fields: vec![FieldDef { key: FieldKey::Unnamed(0), ty: ValueType::Int(IntKind::U32), attrs: Attrs::default() }],
    };
    assert_eq!(plain.display(&vec![Value::UInt(10)]), Ok("[   10]".to_string()));
}

#[test]
fn with_refuses_other_format_traits() {
    let d = StructDef {
        attrs: fmt_attrs("{0:x}"),
        kind: FieldsKind::Unnamed,
        fields: vec![with_field(0, ValueType::Int(IntKind::U32), WithFormat::Fmt)],
    };
    assert_eq!(d.display(&vec![Value::UInt(10)]), Err(DeriveError::WithFormatType));
    assert_eq!(d.check_display(), Some(DeriveError::WithFormatType));
}

#[test]
fn with_delimiter_needs_a_list() {
    let d = StructDef {
        attrs: fmt_attrs("{0}"),
        kind: FieldsKind::Unnamed,
        fields: vec![with_field(0, ValueType::Int(IntKind::U32), join_with(","))],
    };
    assert_eq!(d.display(&vec![Value::UInt(10)]), Err(DeriveError::Unsupported));
    assert_eq!(d.from_str("10").err(), Some(DeriveError::Unsupported));
    let bare = StructDef {
        attrs: fmt_attrs("{0}"),
        kind: FieldsKind::Unnamed,
        fields: vec![FieldDef { key: FieldKey::Unnamed(0), ty: vec_type(ValueType::Int(IntKind::U32)), attrs: Attrs::default() }],
    };
    assert_eq!(bare.from_str("10").err(), Some(DeriveError::Unsupported));
}

#[test]
fn from_str_with_comes_before_display_with() {
    let mut attrs = Attrs { with: Some(join_with(",")), ..Default::default() };
    attrs.from_str_with = Some(join_with(";"));
    let d = StructDef {
        attrs: fmt_attrs("<{0}>"),
        kind: FieldsKind::Unnamed,
        fields: vec![FieldDef { key: FieldKey::Unnamed(0), ty: vec_type(ValueType::Int(IntKind::U32)), attrs }],
    };
    assert_eq!(d.display(&vec![list_of(&[1, 2])]), Ok("<1,2>".to_string()));
    assert_eq!(d.from_str("<1;2>"), Ok(Ok(vec![list_of(&[1, 2])])));
    assert!(matches!(d.from_str("<1,2>"), Ok(Err(_))));
}

#[test]
fn with_delimiter_of_an_empty_text() {
    let d = delimiter_newtype(ValueType::Int(IntKind::U32));
    assert_eq!(d.display(&vec![list_of(&[])]), Ok("".to_string()));
    assert!(matches!(d.from_str(""), Ok(Err(_))));
    let s = delimiter_newtype(ValueType::Str);
    assert_eq!(s.from_str(""), Ok(Ok(vec![Value::List(vec![Value::Str(String::new())])])));
}
