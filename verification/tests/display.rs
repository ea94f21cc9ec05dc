use parse_display::def::{Attrs, EnumDef, FieldDef, FieldsKind, StructDef, VariantDef};
use parse_display::error::DeriveError;
use parse_display::field_key::FieldKey;
use parse_display::value::{IntKind, Value, ValueType};

fn fmt_attrs(f: &str) -> Attrs {
    Attrs { format: Some(f.to_string()), ..Default::default() }
}

fn style_attrs(s: &str) -> Attrs {
    Attrs { style: Some(s.to_string()), ..Default::default() }
}

fn named(name: &str, ty: ValueType) -> FieldDef {
    FieldDef { key: FieldKey::Named(name.to_string()), ty, attrs: Attrs::default() }
}

fn named_fmt(name: &str, ty: ValueType, f: &str) -> FieldDef {
    FieldDef { key: FieldKey::Named(name.to_string()), ty, attrs: fmt_attrs(f) }
}

fn unnamed(i: usize, ty: ValueType) -> FieldDef {
    FieldDef { key: FieldKey::Unnamed(i), ty, attrs: Attrs::default() }
}

fn unnamed_fmt(i: usize, ty: ValueType, f: &str) -> FieldDef {
    FieldDef { key: FieldKey::Unnamed(i), ty, attrs: fmt_attrs(f) }
}

fn int_type(k: IntKind) -> ValueType {
    ValueType::Int(k)
}

fn record(fields: Vec<(&str, ValueType)>) -> ValueType {
    ValueType::Record(fields.into_iter().map(|(k, t)| (key(k), t)).collect())
}

fn key(k: &str) -> FieldKey {
    match k.parse::<usize>() {
        Ok(i) => FieldKey::Unnamed(i),
        Err(_) => FieldKey::Named(k.to_string()),
    }
}

fn rec(fields: Vec<(&str, Value)>) -> Value {
    Value::Record(fields.into_iter().map(|(k, v)| (key(k), v)).collect())
}

fn structure(attrs: Attrs, kind: FieldsKind, fields: Vec<FieldDef>) -> StructDef {
    StructDef { attrs, kind, fields }
}

fn variant(name: &str, attrs: Attrs, kind: FieldsKind, fields: Vec<FieldDef>) -> VariantDef {
    VariantDef { name: name.to_string(), attrs, kind, fields }
}

fn unit(name: &str) -> VariantDef {
    variant(name, Attrs::default(), FieldsKind::Unit, vec![])
}

fn assert_display(d: &StructDef, values: Vec<Value>, expected: &str) {
    assert_eq!(d.display(&values), Ok(expected.to_string()));
}

fn assert_display_variant(e: &EnumDef, vi: usize, values: Vec<Value>, expected: &str) {
    assert_eq!(e.display(vi, &values), Ok(expected.to_string()));
}

fn style_enum(style: &str) -> EnumDef {
    EnumDef {
        attrs: style_attrs(style),
        variants: vec![unit("AbcDef"), unit("XyzXyz"), unit("Abc1"), unit("Abc1Abc2"), unit("Xxx1xxx"), unit("_Xxx")],
    }
}

fn assert_styles(style: &str, expected: [&str; 6]) {
    let e = style_enum(style);
    for (i, x) in expected.iter().enumerate() {
        assert_display_variant(&e, i, vec![], x);
    }
}

#[test]
fn display_enum_lower_snake_case() {
    assert_styles("snake_case", ["abc_def", "xyz_xyz", "abc1", "abc1_abc2", "xxx1xxx", "xxx"]);
}

#[test]
fn display_enum_upper_snake_case() {
    assert_styles("SNAKE_CASE", ["ABC_DEF", "XYZ_XYZ", "ABC1", "ABC1_ABC2", "XXX1XXX", "XXX"]);
}

#[test]
fn display_enum_lower_camel_case() {
    assert_styles("camelCase", ["abcDef", "xyzXyz", "abc1", "abc1Abc2", "xxx1xxx", "xxx"]);
}

#[test]
fn display_enum_upper_camel_case() {
    assert_styles("CamelCase", ["AbcDef", "XyzXyz", "Abc1", "Abc1Abc2", "Xxx1xxx", "Xxx"]);
}

#[test]
fn display_enum_lower_kebab_case() {
    assert_styles("kebab-case", ["abc-def", "xyz-xyz", "abc1", "abc1-abc2", "xxx1xxx", "xxx"]);
}

#[test]
fn display_enum_upper_kebab_case() {
    assert_styles("KEBAB-CASE", ["ABC-DEF", "XYZ-XYZ", "ABC1", "ABC1-ABC2", "XXX1XXX", "XXX"]);
}

#[test]
fn display_enum_upper_title_case() {
    assert_styles("Title Case", ["Abc Def", "Xyz Xyz", "Abc1", "Abc1 Abc2", "Xxx1xxx", "Xxx"]);
}

#[test]
fn display_enum_upper_title_case_upper() {
    assert_styles("TITLE CASE", ["ABC DEF", "XYZ XYZ", "ABC1", "ABC1 ABC2", "XXX1XXX", "XXX"]);
}

#[test]
fn display_enum_upper_title_case_lower() {
    assert_styles("title case", ["abc def", "xyz xyz", "abc1", "abc1 abc2", "xxx1xxx", "xxx"]);
}

#[test]
fn display_enum_upper_title_case_head() {
    assert_styles("Title case", ["Abc def", "Xyz xyz", "Abc1", "Abc1 abc2", "Xxx1xxx", "Xxx"]);
}

#[test]
fn display_enum_lower_case() {
    assert_styles("lowercase", ["abcdef", "xyzxyz", "abc1", "abc1abc2", "xxx1xxx", "xxx"]);
}

#[test]
fn display_enum_upper_case() {
    assert_styles("UPPERCASE", ["ABCDEF", "XYZXYZ", "ABC1", "ABC1ABC2", "XXX1XXX", "XXX"]);
}

#[test]
fn display_enum_none() {
    assert_styles("none", ["AbcDef", "XyzXyz", "Abc1", "Abc1Abc2", "Xxx1xxx", "_Xxx"]);
}

#[test]
fn display_newtype() {
    let d = structure(Attrs::default(), FieldsKind::Unnamed, vec![unnamed(0, int_type(IntKind::U8))]);
    assert_display(&d, vec![Value::UInt(10)], "10");
}

#[test]
fn display_str() {
    let d = structure(fmt_attrs("abcde"), FieldsKind::Unit, vec![]);
    assert_display(&d, vec![], "abcde");
}

#[test]
fn display_struct_field() {
    let d = structure(fmt_attrs("{a} --- {b}"), FieldsKind::Named, vec![named("a", int_type(IntKind::U32)), named("b", int_type(IntKind::U32))]);
    assert_display(&d, vec![Value::UInt(1), Value::UInt(2)], "1 --- 2");
}

#[test]
fn display_struct_field_raw() {
    let d = structure(fmt_attrs("{a},{b}"), FieldsKind::Named, vec![named("a", int_type(IntKind::U32)), named("b", int_type(IntKind::U32))]);
    assert_display(&d, vec![Value::UInt(1), Value::UInt(2)], "1,2");
}

#[test]
fn display_struct_field_raw_keyword() {
    let d = structure(fmt_attrs("{fn},{b}"), FieldsKind::Named, vec![named("fn", int_type(IntKind::U32)), named("b", int_type(IntKind::U32))]);
    assert_display(&d, vec![Value::UInt(1), Value::UInt(2)], "1,2");
}

#[test]
fn display_struct_field_with_parameter() {
    let d = structure(fmt_attrs("{a:<4},{b}"), FieldsKind::Named, vec![named("a", int_type(IntKind::U32)), named("b", int_type(IntKind::U32))]);
    assert_display(&d, vec![Value::UInt(1), Value::UInt(2)], "1   ,2");
}

fn struct2() -> ValueType {
    record(vec![("x", int_type(IntKind::U32)), ("y", int_type(IntKind::U32))])
}

#[test]
fn display_struct_nested_field() {
    let d = structure(fmt_attrs("{a.y},{b.x}"), FieldsKind::Named, vec![named("a", struct2()), named("b", struct2())]);
    let a = rec(vec![("x", Value::UInt(1)), ("y", Value::UInt(2))]);
    let b = rec(vec![("x", Value::UInt(3)), ("y", Value::UInt(4))]);
    assert_display(&d, vec![a, b], "2,3");
}

#[test]
fn display_struct_nested_field_raw_keyword() {
    let t = || record(vec![("fn", int_type(IntKind::U32)), ("y", int_type(IntKind::U32))]);
    let d = structure(fmt_attrs("{fn.fn},{b.y}"), FieldsKind::Named, vec![named("fn", t()), named("b", t())]);
    let a = rec(vec![("fn", Value::UInt(1)), ("y", Value::UInt(2))]);
    let b = rec(vec![("fn", Value::UInt(3)), ("y", Value::UInt(4))]);
    assert_display(&d, vec![a, b], "1,4");
}

#[test]
fn display_tuple_struct_field() {
    let d = structure(fmt_attrs("{1},{0}"), FieldsKind::Unnamed, vec![unnamed(0, int_type(IntKind::U32)), unnamed(1, int_type(IntKind::U32))]);
    assert_display(&d, vec![Value::UInt(10), Value::UInt(20)], "20,10");
}

#[test]
fn display_struct_field_attribute() {
    let d = structure(fmt_attrs("{a},{b}"), FieldsKind::Named, vec![named_fmt("a", int_type(IntKind::U32), "AAAA"), named("b", int_type(IntKind::U32))]);
    assert_display(&d, vec![Value::UInt(1), Value::UInt(2)], "AAAA,2");
}

#[test]
fn display_struct_field_attribute_var() {
    let d = structure(
        fmt_attrs("{a},{b}"),
        FieldsKind::Named,
        vec![named_fmt("a", struct2(), "{x}+{y}"), named_fmt("b", struct2(), "{x}-{y}")],
    );
    let a = rec(vec![("x", Value::UInt(1)), ("y", Value::UInt(2))]);
    let b = rec(vec![("x", Value::UInt(3)), ("y", Value::UInt(4))]);
    assert_display(&d, vec![a, b], "1+2,3-4");
}

#[test]
fn display_struct_field_attribute_var_nested() {
    let t3 = record(vec![("l", int_type(IntKind::U32)), ("m", int_type(IntKind::U32))]);
    let t2 = record(vec![("x", t3)]);
    let d = structure(fmt_attrs("__{a}"), FieldsKind::Named, vec![named_fmt("a", t2, "{x.l}+{x.m}")]);
    let a = rec(vec![("x", rec(vec![("l", Value::UInt(10)), ("m", Value::UInt(20))]))]);
    assert_display(&d, vec![a], "__10+20");
}

#[test]
fn display_struct_field_attribute_self() {
    let d = structure(fmt_attrs("{a},{b}"), FieldsKind::Named, vec![named_fmt("a", int_type(IntKind::U32), "_{}_"), named("b", int_type(IntKind::U32))]);
    assert_display(&d, vec![Value::UInt(1), Value::UInt(2)], "_1_,2");
}

#[test]
fn display_struct_field_attribute_self_hex() {
    let d = structure(fmt_attrs("{a},{b}"), FieldsKind::Named, vec![named_fmt("a", int_type(IntKind::U32), "_{:X}_"), named("b", int_type(IntKind::U32))]);
    assert_display(&d, vec![Value::UInt(10), Value::UInt(2)], "_A_,2");
}

#[test]
fn display_struct_field_another_attribute() {
    let d = structure(fmt_attrs("{a},{b}"), FieldsKind::Named, vec![named("a", int_type(IntKind::U32)), named("b", int_type(IntKind::U32))]);
    assert_display(&d, vec![Value::UInt(1), Value::UInt(2)], "1,2");
}

#[test]
fn display_tuple_struct_nested_field() {
    let pair = record(vec![("0", int_type(IntKind::U32)), ("1", int_type(IntKind::U32))]);
    let d = structure(fmt_attrs("{1.1},{1.0},{0}"), FieldsKind::Unnamed, vec![unnamed(0, int_type(IntKind::U32)), unnamed(1, pair)]);
    let v = rec(vec![("0", Value::UInt(20)), ("1", Value::UInt(30))]);
    assert_display(&d, vec![Value::UInt(10), v], "30,20,10");
}

#[test]
fn display_tuple_struct_attribute() {
    let d = structure(fmt_attrs("{0},{1}"), FieldsKind::Unnamed, vec![unnamed_fmt(0, int_type(IntKind::U32), "AAA-{}"), unnamed(1, int_type(IntKind::U32))]);
    assert_display(&d, vec![Value::UInt(10), Value::UInt(20)], "AAA-10,20");
}

#[test]
fn display_enum() {
    let e = EnumDef { attrs: Attrs::default(), variants: vec![unit("AbcDef"), unit("XyzXyz")] };
    assert_display_variant(&e, 0, vec![], "AbcDef");
    assert_display_variant(&e, 1, vec![], "XyzXyz");
}

#[test]
fn display_enum_common_format() {
    let e = EnumDef {
        attrs: fmt_attrs("{0}"),
        variants: vec![
            variant("A", Attrs::default(), FieldsKind::Unnamed, vec![unnamed(0, int_type(IntKind::U32))]),
            variant("B", Attrs::default(), FieldsKind::Unnamed, vec![unnamed(0, ValueType::Bool)]),
        ],
    };
    assert_display_variant(&e, 0, vec![Value::UInt(10)], "10");
    assert_display_variant(&e, 1, vec![Value::Bool(true)], "true");
}

#[test]
fn display_enum_common_format_variant_name() {
    let e = EnumDef {
        attrs: fmt_attrs("{}-{0}"),
        variants: vec![
            variant("A", Attrs::default(), FieldsKind::Unnamed, vec![unnamed(0, int_type(IntKind::U32))]),
            variant("B", Attrs::default(), FieldsKind::Unnamed, vec![unnamed(0, ValueType::Bool)]),
        ],
    };
    assert_display_variant(&e, 0, vec![Value::UInt(10)], "A-10");
    assert_display_variant(&e, 1, vec![Value::Bool(false)], "B-false");
}

#[test]
fn display_enum_variant_format() {
    let e = EnumDef {
        attrs: Attrs::default(),
        variants: vec![
            variant("A", fmt_attrs("AAA"), FieldsKind::Unnamed, vec![unnamed(0, int_type(IntKind::U32))]),
            variant("B", fmt_attrs("BBB"), FieldsKind::Unnamed, vec![unnamed(0, ValueType::Bool)]),
        ],
    };
    assert_display_variant(&e, 0, vec![Value::UInt(10)], "AAA");
    assert_display_variant(&e, 1, vec![Value::Bool(false)], "BBB");
}

#[test]
fn display_enum_variant_format_tuple_var() {
    let e = EnumDef {
        attrs: Attrs::default(),
        variants: vec![
            variant("A", fmt_attrs("AAA-{0}"), FieldsKind::Unnamed, vec![unnamed(0, int_type(IntKind::U32))]),
            variant("B", fmt_attrs("BBB+{0}"), FieldsKind::Unnamed, vec![unnamed(0, ValueType::Bool)]),
        ],
    };
    assert_display_variant(&e, 0, vec![Value::UInt(10)], "AAA-10");
    assert_display_variant(&e, 1, vec![Value::Bool(true)], "BBB+true");
}

#[test]
fn display_enum_variant_format_record_var() {
    let e = EnumDef {
        attrs: Attrs::default(),
        variants: vec![variant(
            "A",
            fmt_attrs("x={x},y={y}"),
            FieldsKind::Named,
            vec![named("x", int_type(IntKind::U32)), named("y", int_type(IntKind::U32))],
        )],
    };
    assert_display_variant(&e, 0, vec![Value::UInt(10), Value::UInt(20)], "x=10,y=20");
}

#[test]
fn display_enum_variant_format_record_var_f() {
    let e = EnumDef {
        attrs: Attrs::default(),
        variants: vec![variant("A", fmt_attrs("f={f}"), FieldsKind::Named, vec![named("f", int_type(IntKind::U32))])],
    };
    assert_display_variant(&e, 0, vec![Value::UInt(10)], "f=10");
}

#[test]
fn display_enum_variant_format_record_var_keyword() {
    let e = EnumDef {
        attrs: Attrs::default(),
        variants: vec![variant("A", fmt_attrs("fn={fn}"), FieldsKind::Named, vec![named("fn", int_type(IntKind::U32))])],
    };
    assert_display_variant(&e, 0, vec![Value::UInt(10)], "fn=10");
}

#[test]
fn display_enum_field_format() {
    let e = EnumDef {
        attrs: Attrs::default(),
        variants: vec![variant("A", fmt_attrs("{} = {x}"), FieldsKind::Named, vec![named_fmt("x", int_type(IntKind::U32), "---{}")])],
    };
    assert_display_variant(&e, 0, vec![Value::UInt(10)], "A = ---10");
}

#[test]
fn display_enum_field_format_deep() {
    let t = record(vec![("l", int_type(IntKind::U32))]);
    let e = EnumDef {
        attrs: Attrs::default(),
        variants: vec![variant("A", fmt_attrs("{} = {x}"), FieldsKind::Named, vec![named_fmt("x", t, "---{l}")])],
    };
    assert_display_variant(&e, 0, vec![rec(vec![("l", Value::UInt(20))])], "A = ---20");
}

#[test]
fn display_enum_field_format_deep_noncopy() {
    let t = record(vec![("l", ValueType::Bool)]);
    let e = EnumDef {
        attrs: Attrs::default(),
        variants: vec![variant("A", fmt_attrs("{} = {x}"), FieldsKind::Named, vec![named_fmt("x", t, "---{l}")])],
    };
    assert_display_variant(&e, 0, vec![rec(vec![("l", Value::Bool(true))])], "A = ---true");
}

#[test]
fn display_auto_bound_newtype() {
    let d = structure(Attrs::default(), FieldsKind::Unnamed, vec![unnamed(0, int_type(IntKind::I32))]);
    assert_display(&d, vec![Value::Int(10)], "10");
}

#[test]
fn auto_bound_newtype_debug() {
    let d = structure(fmt_attrs("{0:?}"), FieldsKind::Unnamed, vec![unnamed(0, int_type(IntKind::I32))]);
    assert_display(&d, vec![Value::Int(10)], "10");
}

#[test]
fn auto_bound_newtype_lower_hex() {
    let d = structure(fmt_attrs("{0:#x}"), FieldsKind::Unnamed, vec![unnamed(0, int_type(IntKind::I32))]);
    assert_display(&d, vec![Value::Int(10)], "0xa");
}

#[test]
fn auto_bound_newtype_upper_hex() {
    let d = structure(fmt_attrs("{0:#X}"), FieldsKind::Unnamed, vec![unnamed(0, int_type(IntKind::I32))]);
    assert_display(&d, vec![Value::Int(10)], "0xA");
}

#[test]
fn auto_bound_newtype_binary() {
    let d = structure(fmt_attrs("{0:#b}"), FieldsKind::Unnamed, vec![unnamed(0, int_type(IntKind::I32))]);
    assert_display(&d, vec![Value::Int(10)], "0b1010");
}

#[test]
fn auto_bound_field() {
    let d = structure(fmt_attrs("{a}"), FieldsKind::Named, vec![named_fmt("a", int_type(IntKind::I32), "___{}___")]);
    assert_display(&d, vec![Value::Int(10)], "___10___");
}

#[test]
fn display_auto_bound_enum() {
    let e = EnumDef {
        attrs: fmt_attrs("{0}"),
        variants: vec![variant("VarA", Attrs::default(), FieldsKind::Unnamed, vec![unnamed(0, int_type(IntKind::I32))])],
    };
    assert_display_variant(&e, 0, vec![Value::Int(10)], "10");
}

#[test]
fn display_bound_type_enum() {
    let inner = record(vec![("0", int_type(IntKind::I32))]);
    let e = EnumDef {
        attrs: fmt_attrs("{0.0}"),
        variants: vec![variant("A", Attrs::default(), FieldsKind::Unnamed, vec![unnamed(0, inner)])],
    };
    assert_display_variant(&e, 0, vec![rec(vec![("0", Value::Int(10))])], "10");
}

#[test]
fn auto_bound_unused_field() {
    let d = structure(fmt_attrs("{val_u8}"), FieldsKind::Named, vec![named("val_eq", int_type(IntKind::I32)), named("val_u8", int_type(IntKind::U8))]);
    assert_display(&d, vec![Value::Int(0), Value::UInt(1)], "1");
}

#[test]
fn bound_by_hand_with_auto() {
    let inner = record(vec![("0", int_type(IntKind::I32))]);
    let d = structure(fmt_attrs("{0.0},{1}"), FieldsKind::Unnamed, vec![unnamed(0, inner), unnamed(1, int_type(IntKind::I32))]);
    assert_display(&d, vec![rec(vec![("0", Value::Int(10))]), Value::Int(20)], "10,20");
}

#[test]
fn display_doc_comment_struct() {
    let d = structure(Attrs::default(), FieldsKind::Named, vec![named("a", int_type(IntKind::U8))]);
    assert_display(&d, vec![Value::UInt(10)], "10");
}

#[test]
fn display_doc_comment_struct_field() {
    let d = structure(Attrs::default(), FieldsKind::Named, vec![named("a", int_type(IntKind::U8))]);
    assert_display(&d, vec![Value::UInt(10)], "10");
}

#[test]
fn display_doc_comment_enum() {
    let e = EnumDef { attrs: Attrs::default(), variants: vec![unit("A")] };
    assert_display_variant(&e, 0, vec![], "A");
}

#[test]
fn display_doc_comment_variant() {
    let e = EnumDef { attrs: Attrs::default(), variants: vec![unit("A")] };
    assert_display_variant(&e, 0, vec![], "A");
}

#[test]
fn display_attr_enum() {
    let e = EnumDef { attrs: Attrs::default(), variants: vec![unit("A")] };
    assert_display_variant(&e, 0, vec![], "A");
}

#[test]
fn display_macro_rule_hygiene() {
    let d = structure(Attrs::default(), FieldsKind::Named, vec![named("x", int_type(IntKind::U8))]);
    assert_display(&d, vec![Value::UInt(5)], "5");
}

#[test]
fn format_spec_is_empty() {
    let d = structure(fmt_attrs("{0}>"), FieldsKind::Unnamed, vec![unnamed(0, int_type(IntKind::U32))]);
    assert_display(&d, vec![Value::UInt(10)], "10>");
}

#[test]
fn dst_field() {
    let d = structure(fmt_attrs("{0}"), FieldsKind::Unnamed, vec![unnamed(0, ValueType::Str)]);
    assert_display(&d, vec![Value::Str("abc".to_string())], "abc");
}

#[test]
fn escape() {
    let x = structure(fmt_attrs("{{"), FieldsKind::Unit, vec![]);
    assert_display(&x, vec![], "{");
    let y = structure(fmt_attrs("}}"), FieldsKind::Unit, vec![]);
    assert_display(&y, vec![], "}");
}

#[test]
fn display_errors_of_attributes() {
    let no_format = structure(Attrs::default(), FieldsKind::Named, vec![named("a", int_type(IntKind::U8)), named("b", int_type(IntKind::U8))]);
    assert_eq!(no_format.display(&vec![Value::UInt(1), Value::UInt(2)]), Err(DeriveError::FormatRequired));
    let empty_arg = structure(fmt_attrs("{}"), FieldsKind::Unit, vec![]);
    assert_eq!(empty_arg.display(&vec![]), Err(DeriveError::EmptyArgInStruct));
    let unknown = structure(fmt_attrs("{c}"), FieldsKind::Named, vec![named("a", int_type(IntKind::U8))]);
    assert_eq!(unknown.display(&vec![Value::UInt(1)]), Err(DeriveError::UnknownField));
    let bad_format = structure(fmt_attrs("{a"), FieldsKind::Named, vec![named("a", int_type(IntKind::U8))]);
    assert_eq!(bad_format.display(&vec![Value::UInt(1)]), Err(DeriveError::InvalidDisplayFormat));
    let bad_spec = structure(fmt_attrs("{a:q}"), FieldsKind::Named, vec![named("a", int_type(IntKind::U8))]);
    assert_eq!(bad_spec.display(&vec![Value::UInt(1)]), Err(DeriveError::InvalidFormatSpec));
    let bad_style = EnumDef { attrs: style_attrs("Snake"), variants: vec![unit("A")] };
    assert_eq!(bad_style.display(0, &vec![]), Err(DeriveError::InvalidStyle));
    let fields_variant = EnumDef {
        attrs: Attrs::default(),
        variants: vec![variant("A", Attrs::default(), FieldsKind::Unnamed, vec![unnamed(0, int_type(IntKind::U8))])],
    };
    assert_eq!(fields_variant.display(0, &vec![Value::UInt(1)]), Err(DeriveError::FormatRequired));
}

#[test]
fn display_width_fill_and_precision() {
    let d = structure(fmt_attrs("[{a:*^7}|{b:.2}|{c:+05}|{d:>4}]"), FieldsKind::Named, vec![
        named("a", ValueType::Str),
        named("b", ValueType::Str),
        named("c", int_type(IntKind::I32)),
        named("d", ValueType::Char),
    ]);
    let values = vec![Value::Str("ab".to_string()), Value::Str("xyz".to_string()), Value::Int(-3), Value::Char('q')];
    assert_eq!(d.display(&values), Ok("[**ab***|xy|-0003|   q]".to_string()));
}

#[test]
fn display_variant_name_with_width() {
    let e = EnumDef { attrs: fmt_attrs("<{:>5}>"), variants: vec![unit("Ab")] };
    assert_display_variant(&e, 0, vec![], "<   Ab>");
}

#[test]
fn display_enum_is_refused_for_an_invalid_variant() {
    let e = EnumDef {
        attrs: Attrs::default(),
        variants: vec![
            unit("A"),
            variant("B", fmt_attrs("{x}"), FieldsKind::Unnamed, vec![unnamed(0, int_type(IntKind::U32))]),
        ],
    };
    assert_eq!(e.display(0, &vec![]), Err(DeriveError::UnknownField));
    assert_eq!(e.check_display(), Some(DeriveError::UnknownField));
    let ok = EnumDef { attrs: Attrs::default(), variants: vec![unit("A"), unit("B")] };
    assert_eq!(ok.check_display(), None);
    assert_display_variant(&ok, 1, vec![], "B");
}

fn one_field(f: &str, ty: ValueType) -> StructDef {
    structure(fmt_attrs(f), FieldsKind::Unnamed, vec![unnamed(0, ty)])
}

#[test]
fn display_debug_of_text_fields() {
    assert_display(&one_field("{0:?}", ValueType::Str), vec![Value::Str("ab".to_string())], &format!("{:?}", "ab"));
    assert_display(&one_field("{0:?}", ValueType::Str), vec![Value::Str("a\"b\n".to_string())], &format!("{:?}", "a\"b\n"));
    assert_display(&one_field("{0:?}", ValueType::Char), vec![Value::Char('\'')], &format!("{:?}", '\''));
    assert_display(&one_field("[{0:?}]", ValueType::Char), vec![Value::Char('a')], "['a']");
    assert_display(&one_field("{0:>8?}", ValueType::Str), vec![Value::Str("ab".to_string())], &format!("{:>8?}", "ab"));
    assert_display(&one_field("{0:*^9.1?}", ValueType::Str), vec![Value::Str("ab".to_string())], &format!("{:*^9.1?}", "ab"));
    assert_display(&one_field("{0:#?}", ValueType::Str), vec![Value::Str("a\tb".to_string())], &format!("{:#?}", "a\tb"));
    assert_display(&one_field("{0:<5?}", ValueType::Char), vec![Value::Char('x')], &format!("{:<5?}", 'x'));
}

#[test]
fn display_negative_integers_in_radix() {
    assert_display(&one_field("{0:x}", int_type(IntKind::I32)), vec![Value::Int(-1)], &format!("{:x}", -1i32));
    assert_display(&one_field("{0:#x}", int_type(IntKind::I8)), vec![Value::Int(-1)], &format!("{:#x}", -1i8));
    assert_display(&one_field("{0:b}", int_type(IntKind::I8)), vec![Value::Int(-2)], &format!("{:b}", -2i8));
    assert_display(&one_field("{0:X}", int_type(IntKind::I64)), vec![Value::Int(i64::MIN as i128)], &format!("{:X}", i64::MIN));
    assert_display(&one_field("{0:o}", int_type(IntKind::I16)), vec![Value::Int(-8)], &format!("{:o}", -8i16));
    assert_display(&one_field("{0:>10x}", int_type(IntKind::Isize)), vec![Value::Int(-1)], &format!("{:>10x}", -1isize));
    assert_eq!(one_field("{0:x}", int_type(IntKind::I8)).display(&vec![Value::Int(-1000)]), Err(DeriveError::Unsupported));
}

#[test]
fn display_integers_in_scientific_notation() {
    let u = int_type(IntKind::U32);
    assert_display(&one_field("{0:e}", int_type(IntKind::U32)), vec![Value::UInt(10)], &format!("{:e}", 10u32));
    assert_display(&one_field("{0:e}", int_type(IntKind::U32)), vec![Value::UInt(1234)], &format!("{:e}", 1234u32));
    assert_display(&one_field("{0:E}", int_type(IntKind::U32)), vec![Value::UInt(1200)], &format!("{:E}", 1200u32));
    assert_display(&one_field("{0:e}", int_type(IntKind::U32)), vec![Value::UInt(0)], &format!("{:e}", 0u32));
    assert_display(&one_field("{0:e}", int_type(IntKind::I32)), vec![Value::Int(-15)], &format!("{:e}", -15i32));
    assert_display(&one_field("{0:>8e}", int_type(IntKind::U32)), vec![Value::UInt(10)], &format!("{:>8e}", 10u32));
    assert_display(&one_field("{0:08e}", int_type(IntKind::I32)), vec![Value::Int(-10)], &format!("{:08e}", -10i32));
    assert_display(&one_field("{0:+e}", int_type(IntKind::U32)), vec![Value::UInt(7)], &format!("{:+e}", 7u32));
    assert_display(&one_field("{0:e}", int_type(IntKind::U64)), vec![Value::UInt(u64::MAX as u128)], &format!("{:e}", u64::MAX));
    for n in [0u32, 5, 10, 15, 25, 999, 1234, 1235, 1245, 12451, 99999, 100, 4_294_967_295] {
        for spec in ["{0:.0e}", "{0:.1e}", "{0:.2e}", "{0:.5E}", "{0:>12.1e}"] {
            let expected = match spec {
                "{0:.0e}" => format!("{:.0e}", n),
                "{0:.1e}" => format!("{:.1e}", n),
                "{0:.2e}" => format!("{:.2e}", n),
                "{0:.5E}" => format!("{:.5E}", n),
                _ => format!("{:>12.1e}", n),
            };
            assert_display(&one_field(spec, int_type(IntKind::U32)), vec![Value::UInt(n as u128)], &expected);
        }
    }
    assert_display(&one_field("{0:.1e}", int_type(IntKind::I32)), vec![Value::Int(-1250)], &format!("{:.1e}", -1250i32));
    assert_display(&one_field("{0:.3e}", int_type(IntKind::U64)), vec![Value::UInt(u64::MAX as u128)], &format!("{:.3e}", u64::MAX));
    let _ = u;
}

#[test]
fn by_hex() {
    let d = structure(fmt_attrs("{:#x}"), FieldsKind::Unnamed, vec![unnamed(0, int_type(IntKind::U32))]);
    assert_eq!(d.check_display(), None);
    let own = vec![("#x".to_string(), format!("{:#x}", 10u32))];
    assert_eq!(d.display_own(&vec![Value::UInt(10)], &own), Ok("0xa".to_string()));
}

#[test]
fn by_debug() {
    #[derive(Debug)]
    #[allow(dead_code)]
    enum E {
        A,
        B(u8),
    }
    let e = EnumDef {
        attrs: fmt_attrs("{:?}"),
        variants: vec![unit("A"), variant("B", Attrs::default(), FieldsKind::Unnamed, vec![unnamed(0, int_type(IntKind::U8))])],
    };
    assert_eq!(e.check_display(), None);
    let a = vec![("?".to_string(), format!("{:?}", E::A))];
    assert_eq!(e.display_own(0, &vec![], &a), Ok(format!("{:?}", E::A)));
    let b = vec![("?".to_string(), format!("{:?}", E::B(10)))];
    assert_eq!(e.display_own(1, &vec![Value::UInt(10)], &b), Ok(format!("{:?}", E::B(10))));
}

#[test]
fn display_own_text_must_be_given() {
    let e = EnumDef { attrs: fmt_attrs("<{:?}>"), variants: vec![unit("A")] };
    assert_eq!(e.display(0, &vec![]), Err(DeriveError::OwnTextMissing));
    let own = vec![("x".to_string(), "ignored".to_string()), ("?".to_string(), "A".to_string())];
    assert_eq!(e.display_own(0, &vec![], &own), Ok("<A>".to_string()));
}

#[test]
fn display_counts_from_arguments_are_refused() {
    let d = structure(fmt_attrs("{a:1$}{b}"), FieldsKind::Named, vec![named("a", int_type(IntKind::U32)), named("b", int_type(IntKind::Usize))]);
    assert_eq!(d.check_display(), Some(DeriveError::CountFromArgument));
    let e = structure(fmt_attrs("{a:.*}"), FieldsKind::Named, vec![named("a", ValueType::Str)]);
    assert_eq!(e.check_display(), Some(DeriveError::CountFromArgument));
}

#[test]
fn integers_of_128_bits() {
    let u = int_type(IntKind::U128);
    let i = int_type(IntKind::I128);
    assert_display(&one_field("{0}", int_type(IntKind::U128)), vec![Value::UInt(u128::MAX)], &u128::MAX.to_string());
    for spec in ["{0}", "{0:x}", "{0:#X}", "{0:o}", "{0:b}", "{0:e}", "{0:.5E}", "{0:>50}", "{0:+}"] {
        let expected = match spec {
            "{0}" => format!("{}", i128::MIN),
            "{0:x}" => format!("{:x}", i128::MIN),
            "{0:#X}" => format!("{:#X}", i128::MIN),
            "{0:o}" => format!("{:o}", i128::MIN),
            "{0:b}" => format!("{:b}", i128::MIN),
            "{0:e}" => format!("{:e}", i128::MIN),
            "{0:.5E}" => format!("{:.5E}", i128::MIN),
            "{0:>50}" => format!("{:>50}", i128::MIN),
            _ => format!("{:+}", i128::MIN),
        };
        assert_display(&one_field(spec, int_type(IntKind::I128)), vec![Value::Int(i128::MIN)], &expected);
    }
    assert_display(&one_field("{0:.2e}", int_type(IntKind::U128)), vec![Value::UInt(u128::MAX)], &format!("{:.2e}", u128::MAX));
    assert_eq!(u.parse(&u128::MAX.to_string()), Some(Value::UInt(u128::MAX)));
    assert_eq!(u.parse("340282366920938463463374607431768211456"), None);
    assert_eq!(i.parse(&i128::MIN.to_string()), Some(Value::Int(i128::MIN)));
    assert_eq!(i.parse("+170141183460469231731687303715884105727"), Some(Value::Int(i128::MAX)));
    assert_eq!(i.parse("170141183460469231731687303715884105728"), None);
    assert_eq!(i.parse("-170141183460469231731687303715884105729"), None);
    assert_eq!(int_type(IntKind::U8).parse("-0"), None);
    assert_eq!(int_type(IntKind::I8).parse("-0"), Some(Value::Int(0)));
}

/// The address of `r`, read back from what `{:p}` writes of it.
fn address_of(r: &u32) -> (usize, String) {
    let text = format!("{r:p}");
    (usize::from_str_radix(&text[2..], 16).unwrap(), text)
}

#[test]
fn struct_field_pointer() {
    let x = 0u32;
    let (a, text) = address_of(&x);
    let d = structure(fmt_attrs("{0:p}"), FieldsKind::Unnamed, vec![unnamed(0, ValueType::Pointer)]);
    assert_display(&d, vec![Value::Pointer(a)], &text);
}

#[test]
fn enum_field_pointer() {
    let x = 0u32;
    let (a, text) = address_of(&x);
    let e = EnumDef {
        attrs: Attrs::default(),
        variants: vec![variant("A", fmt_attrs("{0:p}"), FieldsKind::Unnamed, vec![unnamed(0, ValueType::Pointer)])],
    };
    assert_display_variant(&e, 0, vec![Value::Pointer(a)], &text);
}

#[test]
fn pointer_specifiers() {
    let x = 0u32;
    let r = &x;
    let (a, _) = address_of(r);
    for (spec, expected) in [
        ("{0:p}", format!("{r:p}")),
        ("{0:#p}", format!("{r:#p}")),
        ("{0:20p}", format!("{r:20p}")),
        ("{0:<24p}", format!("{r:<24p}")),
        ("{0:#24p}", format!("{r:#24p}")),
    ] {
        let d = structure(fmt_attrs(spec), FieldsKind::Unnamed, vec![unnamed(0, ValueType::Pointer)]);
        assert_display(&d, vec![Value::Pointer(a)], &expected);
    }
    let d = structure(fmt_attrs("{0:x}"), FieldsKind::Unnamed, vec![unnamed(0, ValueType::Pointer)]);
    assert_eq!(d.display(&vec![Value::Pointer(a)]), Err(DeriveError::Unsupported));
}
