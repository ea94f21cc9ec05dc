use parse_display::def::{Attrs, EnumDef, FieldDef, FieldsKind, StructDef, VariantDef};
use parse_display::error::DeriveError;
use parse_display::error::ParseError;
use parse_display::field_key::FieldKey;
use parse_display::value::{IntKind, Value, ValueType};

fn fmt_attrs(f: &str) -> Attrs {
    Attrs { format: Some(f.to_string()), ..Default::default() }
}

fn style_attrs(s: &str) -> Attrs {
    Attrs { style: Some(s.to_string()), ..Default::default() }
}

fn named(name: &str, ty: ValueType) -> FieldDef {
    FieldDef { key: FieldKey::Named(name.to_string()), ty, attrs: Attrs::default() }
}

fn named_fmt(name: &str, ty: ValueType, f: &str) -> FieldDef {
    FieldDef { key: FieldKey::Named(name.to_string()), ty, attrs: fmt_attrs(f) }
}

fn unnamed(i: usize, ty: ValueType) -> FieldDef {
    FieldDef { key: FieldKey::Unnamed(i), ty, attrs: Attrs::default() }
}

fn unnamed_fmt(i: usize, ty: ValueType, f: &str) -> FieldDef {
    FieldDef { key: FieldKey::Unnamed(i), ty, attrs: fmt_attrs(f) }
}

fn int_type(k: IntKind) -> ValueType {
    ValueType::Int(k)
}

fn record(fields: Vec<(&str, ValueType)>) -> ValueType {
    ValueType::Record(fields.into_iter().map(|(k, t)| (key(k), t)).collect())
}

fn key(k: &str) -> FieldKey {
    match k.parse::<usize>() {
        Ok(i) => FieldKey::Unnamed(i),
        Err(_) => FieldKey::Named(k.to_string()),
    }
}

fn rec(fields: Vec<(&str, Value)>) -> Value {
    Value::Record(fields.into_iter().map(|(k, v)| (key(k), v)).collect())
}

fn structure(attrs: Attrs, kind: FieldsKind, fields: Vec<FieldDef>) -> StructDef {
    StructDef { attrs, kind, fields }
}

fn variant(name: &str, attrs: Attrs, kind: FieldsKind, fields: Vec<FieldDef>) -> VariantDef {
    VariantDef { name: name.to_string(), attrs, kind, fields }
}

fn unit(name: &str) -> VariantDef {
    variant(name, Attrs::default(), FieldsKind::Unit, vec![])
}


fn regex_attrs(r: &str) -> Attrs {
    Attrs { regex: Some(r.to_string()), ..Default::default() }
}

fn default_attrs() -> Attrs {
    Attrs { default: true, ..Default::default() }
}

fn with_default(mut f: FieldDef) -> FieldDef {
    f.attrs.default = true;
    f
}

fn with_regex(mut f: FieldDef, r: &str) -> FieldDef {
    f.attrs.regex = Some(r.to_string());
    f
}

fn u32t() -> ValueType {
    int_type(IntKind::U32)
}

fn assert_from_str(d: &StructDef, s: &str, values: Vec<Value>) {
    match d.from_str(s) {
        Ok(Ok(v)) => assert_eq!(v, values, "input = {s:?}"),
        other => panic!("{s:?} parse failed: {other:?}"),
    }
}

fn assert_from_str_err(d: &StructDef, s: &str) {
    match d.from_str(s) {
        Ok(Err(_)) => {},
        other => panic!("from_str({s:?}) should fail, but gives {other:?}"),
    }
}

fn assert_from_str_variant(e: &EnumDef, s: &str, vi: usize, values: Vec<Value>) {
    match e.from_str(s) {
        Ok(Ok((i, v))) => {
            assert_eq!(i, vi, "input = {s:?}");
            assert_eq!(v, values, "input = {s:?}");
        },
        other => panic!("{s:?} parse failed: {other:?}"),
    }
}

fn assert_from_str_variant_err(e: &EnumDef, s: &str) {
    match e.from_str(s) {
        Ok(Err(_)) => {},
        other => panic!("from_str({s:?}) should fail, but gives {other:?}"),
    }
}

fn struct2() -> ValueType {
    record(vec![("x", u32t()), ("y", u32t())])
}

fn struct2_value(x: u64, y: u64) -> Value {
    rec(vec![("x", Value::UInt(x as u128)), ("y", Value::UInt(y as u128))])
}

#[test]
fn from_str_from_str_newtype() {
    let d = structure(Attrs::default(), FieldsKind::Unnamed, vec![unnamed(0, u32t())]);
    assert_from_str(&d, "12", vec![Value::UInt(12)]);
    assert_from_str_err(&d, "abc");
}

#[test]
fn from_str_from_str_struct_keyword_field() {
    let d = structure(fmt_attrs("{fn}"), FieldsKind::Named, vec![named("fn", u32t())]);
    assert_from_str(&d, "12", vec![Value::UInt(12)]);
    assert_from_str_err(&d, "aa");
}

#[test]
fn from_str_from_str_struct_format() {
    let d = structure(fmt_attrs("{a},{b}"), FieldsKind::Named, vec![named("a", u32t()), named("b", u32t())]);
    assert_from_str(&d, "12,50", vec![Value::UInt(12), Value::UInt(50)]);
    assert_from_str_err(&d, "aa,50");
}

#[test]
fn from_str_struct_format_swap() {
    let d = structure(fmt_attrs("{b},{a}"), FieldsKind::Named, vec![named("a", u32t()), named("b", u32t())]);
    assert_from_str(&d, "12,50", vec![Value::UInt(50), Value::UInt(12)]);
}

#[test]
fn from_str_from_str_struct_regex() {
    let d = structure(regex_attrs("(?P<a>.*),(?P<bc>.*)"), FieldsKind::Named, vec![named("a", u32t()), named("bc", u32t())]);
    assert_from_str(&d, "12,50", vec![Value::UInt(12), Value::UInt(50)]);
    assert_from_str_err(&d, "aa,50");
}

#[test]
fn from_str_tuple_struct_regex() {
    let d = structure(regex_attrs("(?P<0>.*),(?P<1>.*)"), FieldsKind::Unnamed, vec![unnamed(0, u32t()), unnamed(1, u32t())]);
    assert_from_str(&d, "12,50", vec![Value::UInt(12), Value::UInt(50)]);
    assert_from_str_err(&d, "aa,50");
}

#[test]
fn from_str_from_str_struct_regex_keyword() {
    let d = structure(regex_attrs("(?P<fn>.*)"), FieldsKind::Named, vec![named("fn", u32t())]);
    assert_from_str(&d, "12", vec![Value::UInt(12)]);
}

#[test]
fn from_str_from_str_struct_field_format() {
    let d = structure(fmt_attrs("{a},{b}"), FieldsKind::Named, vec![named_fmt("a", u32t(), "--{}--"), named("b", u32t())]);
    assert_from_str(&d, "--12--,50", vec![Value::UInt(12), Value::UInt(50)]);
}

#[test]
fn from_str_from_str_struct_field_regex_all() {
    let d = structure(fmt_attrs("{a}{b}"), FieldsKind::Named, vec![with_regex(named("a", u32t()), "[0-9]+"), named("b", ValueType::Str)]);
    assert_from_str(&d, "12abc", vec![Value::UInt(12), Value::Str("abc".to_string())]);
}

#[test]
fn from_str_from_str_struct_field_regex_self() {
    let d = structure(fmt_attrs("{a},{b}"), FieldsKind::Named, vec![with_regex(named("a", u32t()), "---(?P<>[0-9]+)---"), named("b", u32t())]);
    assert_from_str(&d, "---12---,50", vec![Value::UInt(12), Value::UInt(50)]);
}

#[test]
fn from_str_from_str_struct_format_chain() {
    let d = structure(
        Attrs { format: Some("{a.x},{a.y}".to_string()), default: true, ..Default::default() },
        FieldsKind::Named,
        vec![named("a", struct2()), named("b", struct2())],
    );
    assert_from_str(&d, "10,50", vec![struct2_value(10, 50), struct2_value(0, 0)]);
}

#[test]
fn from_str_from_str_struct_format_chain_default_field() {
    let d = structure(
        fmt_attrs("{a.x},{a.y}"),
        FieldsKind::Named,
        vec![with_default(named("a", struct2())), with_default(named("b", struct2()))],
    );
    assert_from_str(&d, "10,50", vec![struct2_value(10, 50), struct2_value(0, 0)]);
}

#[test]
fn from_str_from_str_struct_field_format_chain() {
    let t3 = || record(vec![("x", u32t()), ("y", u32t())]);
    let t2 = record(vec![("b", t3())]);
    let d = structure(
        Attrs { format: Some("{a}".to_string()), default: true, ..Default::default() },
        FieldsKind::Named,
        vec![named_fmt("a", t2, "{b.x}")],
    );
    let expected = rec(vec![("b", rec(vec![("x", Value::UInt(10)), ("y", Value::UInt(0))]))]);
    assert_from_str(&d, "10", vec![expected]);
}

#[test]
fn from_str_enum_named_field_chain() {
    let pair = record(vec![("0", int_type(IntKind::U8)), ("1", int_type(IntKind::U8))]);
    let e = EnumDef {
        attrs: Attrs::default(),
        variants: vec![variant("A", fmt_attrs("{x.0}-{x.1}"), FieldsKind::Named, vec![with_default(named("x", pair))])],
    };
    assert_from_str_variant(&e, "5-6", 0, vec![rec(vec![("0", Value::UInt(5)), ("1", Value::UInt(6))])]);
}

#[test]
fn from_str_enum_unnamed_field_chain() {
    let pair = record(vec![("0", int_type(IntKind::U8)), ("1", int_type(IntKind::U8))]);
    let e = EnumDef {
        attrs: Attrs::default(),
        variants: vec![variant("A", fmt_attrs("{0.0}-{0.1}"), FieldsKind::Unnamed, vec![with_default(unnamed(0, pair))])],
    };
    assert_from_str_variant(&e, "5-6", 0, vec![rec(vec![("0", Value::UInt(5)), ("1", Value::UInt(6))])]);
}

#[test]
fn from_str_from_str_struct_deep_regex() {
    let d = structure(
        Attrs { regex: Some("(?P<a.x>.*),(?P<a.y>.*)".to_string()), default: true, ..Default::default() },
        FieldsKind::Named,
        vec![named("a", struct2()), named("b", struct2())],
    );
    assert_from_str(&d, "10,50", vec![struct2_value(10, 50), struct2_value(0, 0)]);
}

#[test]
fn from_str_from_str_struct_field_deep_regex() {
    let t3 = || record(vec![("x", u32t()), ("y", u32t())]);
    let t2 = record(vec![("b", t3())]);
    let d = structure(
        Attrs { format: Some("{a}".to_string()), default: true, ..Default::default() },
        FieldsKind::Named,
        vec![with_regex(named("a", t2), "(?P<b.x>.*)")],
    );
    let expected = rec(vec![("b", rec(vec![("x", Value::UInt(10)), ("y", Value::UInt(0))]))]);
    assert_from_str(&d, "10", vec![expected]);
}

#[test]
fn from_str_from_str_struct_default() {
    let d = structure(
        Attrs { format: Some("{a}".to_string()), default: true, ..Default::default() },
        FieldsKind::Named,
        vec![named("a", u32t()), named("b", u32t())],
    );
    assert_from_str(&d, "12", vec![Value::UInt(12), Value::UInt(0)]);
}

#[test]
fn from_str_from_str_struct_default_both() {
    let d = structure(
        Attrs { format: Some("{a}".to_string()), default: true, ..Default::default() },
        FieldsKind::Named,
        vec![named("a", u32t()), with_default(named("b", u32t()))],
    );
    assert_from_str(&d, "12", vec![Value::UInt(12), Value::UInt(0)]);
}

#[test]
fn from_str_from_str_struct_field_default() {
    let d = structure(fmt_attrs("{a}"), FieldsKind::Named, vec![named("a", u32t()), with_default(named("b", u32t()))]);
    assert_from_str(&d, "12", vec![Value::UInt(12), Value::UInt(0)]);
}

#[test]
fn from_str_from_str_tuple_field_default() {
    let d = structure(fmt_attrs("{0}"), FieldsKind::Unnamed, vec![unnamed(0, u32t()), with_default(unnamed(1, u32t()))]);
    assert_from_str(&d, "12", vec![Value::UInt(12), Value::UInt(0)]);
}

fn default_fields_attrs(format: &str, names: &[&str]) -> Attrs {
    Attrs {
        format: Some(format.to_string()),
        default_fields: names.iter().map(|s| s.to_string()).collect(),
        ..Default::default()
    }
}

#[test]
fn from_str_from_str_struct_default_fields_str() {
    let d = structure(default_fields_attrs("{a}", &["b"]), FieldsKind::Named, vec![named("a", u32t()), named("b", u32t())]);
    assert_from_str(&d, "12", vec![Value::UInt(12), Value::UInt(0)]);
}

#[test]
fn from_str_from_str_struct_default_fields_many() {
    let d = structure(
        default_fields_attrs("{a}", &["b", "c"]),
        FieldsKind::Named,
        vec![named("a", u32t()), named("b", u32t()), named("c", u32t())],
    );
    assert_from_str(&d, "12", vec![Value::UInt(12), Value::UInt(0), Value::UInt(0)]);
}

#[test]
fn from_str_from_str_struct_default_fields_ident() {
    let d = structure(default_fields_attrs("{a}", &["b"]), FieldsKind::Named, vec![named("a", u32t()), named("b", u32t())]);
    assert_from_str(&d, "12", vec![Value::UInt(12), Value::UInt(0)]);
}

#[test]
fn from_str_from_str_struct_default_fields_ident_keyword() {
    let d = structure(default_fields_attrs("{fn}", &["fn"]), FieldsKind::Named, vec![named("fn", u32t())]);
    assert_from_str(&d, "12", vec![Value::UInt(12)]);
}

#[test]
fn from_str_enum_field_default() {
    let e = EnumDef {
        attrs: fmt_attrs("{a}"),
        variants: vec![variant(
            "VerA",
            Attrs::default(),
            FieldsKind::Named,
            vec![named("a", int_type(IntKind::U8)), with_default(named("b", int_type(IntKind::U8)))],
        )],
    };
    assert_from_str_variant(&e, "10", 0, vec![Value::UInt(10), Value::UInt(0)]);
}

#[test]
fn from_str_enum_tuple_field_default() {
    let e = EnumDef {
        attrs: fmt_attrs("{0}"),
        variants: vec![variant(
            "VerA",
            Attrs::default(),
            FieldsKind::Unnamed,
            vec![unnamed(0, int_type(IntKind::U8)), with_default(unnamed(1, int_type(IntKind::U8)))],
        )],
    };
    assert_from_str_variant(&e, "10", 0, vec![Value::UInt(10), Value::UInt(0)]);
}

#[test]
fn from_str_enum_default_fields() {
    let e = EnumDef {
        attrs: default_fields_attrs("{a}", &["b"]),
        variants: vec![variant(
            "VerA",
            Attrs::default(),
            FieldsKind::Named,
            vec![named("a", int_type(IntKind::U8)), named("b", int_type(IntKind::U8))],
        )],
    };
    assert_from_str_variant(&e, "10", 0, vec![Value::UInt(10), Value::UInt(0)]);
}

#[test]
fn from_str_from_str_tuple() {
    let d = structure(fmt_attrs("{0},{1}"), FieldsKind::Unnamed, vec![unnamed(0, u32t()), unnamed(1, u32t())]);
    assert_from_str(&d, "12,50", vec![Value::UInt(12), Value::UInt(50)]);
}

#[test]
fn from_str_from_str_unit() {
    let d = structure(fmt_attrs("abc"), FieldsKind::Unit, vec![]);
    assert_from_str(&d, "abc", vec![]);
}

#[test]
fn from_str_from_str_enum_unit() {
    let e = EnumDef { attrs: Attrs::default(), variants: vec![unit("A"), unit("Bc")] };
    assert_from_str_variant(&e, "A", 0, vec![]);
    assert_from_str_variant(&e, "Bc", 1, vec![]);
}

#[test]
fn from_str_from_str_enum_style() {
    let e = EnumDef {
        attrs: style_attrs("snake_case"),
        variants: vec![unit("AaaBbb"), unit("XyzXyz"), variant("TitleAbc", style_attrs("Title Case"), FieldsKind::Unit, vec![])],
    };
    assert_from_str_variant(&e, "aaa_bbb", 0, vec![]);
    assert_from_str_variant(&e, "xyz_xyz", 1, vec![]);
    assert_from_str_variant(&e, "Title Abc", 2, vec![]);
}

#[test]
fn from_str_from_str_enum_format() {
    let e = EnumDef { attrs: fmt_attrs("{}--"), variants: vec![unit("A"), unit("Bc")] };
    assert_from_str_variant(&e, "A--", 0, vec![]);
    assert_from_str_variant(&e, "Bc--", 1, vec![]);
}

fn x_variant(name: &str) -> VariantDef {
    variant(name, Attrs::default(), FieldsKind::Named, vec![named("x", u32t())])
}

fn tuple_variant(name: &str) -> VariantDef {
    variant(name, Attrs::default(), FieldsKind::Unnamed, vec![unnamed(0, u32t())])
}

#[test]
fn from_str_from_str_enum_format_struct_var() {
    let e = EnumDef { attrs: fmt_attrs("{}--{x}"), variants: vec![x_variant("A"), x_variant("Bc")] };
    assert_from_str_variant(&e, "A--10", 0, vec![Value::UInt(10)]);
    assert_from_str_variant(&e, "Bc--20", 1, vec![Value::UInt(20)]);
}

#[test]
fn from_str_from_str_enum_format_tuple_var() {
    let e = EnumDef { attrs: fmt_attrs("{}--{0}"), variants: vec![tuple_variant("A"), tuple_variant("Bc")] };
    assert_from_str_variant(&e, "A--10", 0, vec![Value::UInt(10)]);
    assert_from_str_variant(&e, "Bc--20", 1, vec![Value::UInt(20)]);
}

#[test]
fn from_str_from_str_enum_regex() {
    let e = EnumDef { attrs: regex_attrs("(?P<>)--"), variants: vec![unit("A"), unit("Bc")] };
    assert_from_str_variant(&e, "A--", 0, vec![]);
    assert_from_str_variant(&e, "Bc--", 1, vec![]);
}

#[test]
fn from_str_from_str_enum_regex_tuple_var() {
    let e = EnumDef { attrs: regex_attrs("(?P<>)--(?P<0>.*)"), variants: vec![tuple_variant("A"), tuple_variant("Bc")] };
    assert_from_str_variant(&e, "A--10", 0, vec![Value::UInt(10)]);
    assert_from_str_variant(&e, "Bc--20", 1, vec![Value::UInt(20)]);
}

#[test]
fn from_str_from_str_enum_regex_struct_var() {
    let e = EnumDef { attrs: regex_attrs("(?P<>)--(?P<x>.*)"), variants: vec![x_variant("A"), x_variant("Bc")] };
    assert_from_str_variant(&e, "A--10", 0, vec![Value::UInt(10)]);
    assert_from_str_variant(&e, "Bc--20", 1, vec![Value::UInt(20)]);
}

#[test]
fn from_str_from_str_enum_variant_format() {
    let e = EnumDef {
        attrs: Attrs::default(),
        variants: vec![variant("A", fmt_attrs("xxx"), FieldsKind::Unit, vec![]), variant("Bc", fmt_attrs("yyy"), FieldsKind::Unit, vec![])],
    };
    assert_from_str_variant(&e, "xxx", 0, vec![]);
    assert_from_str_variant(&e, "yyy", 1, vec![]);
}

#[test]
fn from_str_from_str_enum_variant_format_var() {
    let e = EnumDef {
        attrs: Attrs::default(),
        variants: vec![
            variant("A", fmt_attrs("{} - {0}"), FieldsKind::Unnamed, vec![unnamed(0, u32t())]),
            variant("Bc", fmt_attrs("yyy + {x}"), FieldsKind::Named, vec![named("x", u32t())]),
        ],
    };
    assert_from_str_variant(&e, "A - 10", 0, vec![Value::UInt(10)]);
    assert_from_str_variant(&e, "yyy + 50", 1, vec![Value::UInt(50)]);
}

#[test]
fn from_str_from_str_enum_variant_regex_var() {
    let e = EnumDef {
        attrs: Attrs::default(),
        variants: vec![
            variant("A", regex_attrs("(?P<>) - (?P<0>.*)"), FieldsKind::Unnamed, vec![unnamed(0, u32t())]),
            variant("Bc", regex_attrs(r"yyy \+ (?P<x>.*)"), FieldsKind::Named, vec![named("x", u32t())]),
        ],
    };
    assert_from_str_variant(&e, "A - 10", 0, vec![Value::UInt(10)]);
    assert_from_str_variant(&e, "yyy + 50", 1, vec![Value::UInt(50)]);
    assert_from_str_variant_err(&e, "A - xx");
    assert_from_str_variant_err(&e, "yyy - xx");
}

#[test]
fn from_str_from_str_enum_format_variant_format() {
    let e = EnumDef {
        attrs: fmt_attrs("yyy + {x}"),
        variants: vec![variant("A", fmt_attrs("{} - {0}"), FieldsKind::Unnamed, vec![unnamed(0, u32t())]), x_variant("Bc")],
    };
    assert_from_str_variant(&e, "A - 10", 0, vec![Value::UInt(10)]);
    assert_from_str_variant(&e, "yyy + 50", 1, vec![Value::UInt(50)]);
}

#[test]
fn from_str_from_str_enum_format_variant_regex() {
    let e = EnumDef {
        attrs: fmt_attrs("yyy + {x}"),
        variants: vec![variant("A", regex_attrs("(?P<>) - (?P<0>.*)"), FieldsKind::Unnamed, vec![unnamed(0, u32t())]), x_variant("Bc")],
    };
    assert_from_str_variant(&e, "A - 10", 0, vec![Value::UInt(10)]);
    assert_from_str_variant(&e, "yyy + 50", 1, vec![Value::UInt(50)]);
}

#[test]
fn from_str_from_str_enum_regex_variant_format() {
    let e = EnumDef {
        attrs: regex_attrs(r"yyy \+ (?P<x>.*)"),
        variants: vec![variant("A", fmt_attrs("{} - {0}"), FieldsKind::Unnamed, vec![unnamed(0, u32t())]), x_variant("Bc")],
    };
    assert_from_str_variant(&e, "A - 10", 0, vec![Value::UInt(10)]);
    assert_from_str_variant(&e, "yyy + 50", 1, vec![Value::UInt(50)]);
}

#[test]
fn from_str_from_str_enum_regex_variant_regex() {
    let e = EnumDef {
        attrs: regex_attrs("(?P<>) - (?P<0>.*)"),
        variants: vec![tuple_variant("A"), variant("Bc", regex_attrs(r"yyy \+ (?P<x>.*)"), FieldsKind::Named, vec![named("x", u32t())])],
    };
    assert_from_str_variant(&e, "A - 10", 0, vec![Value::UInt(10)]);
    assert_from_str_variant(&e, "yyy + 50", 1, vec![Value::UInt(50)]);
    assert_from_str_variant_err(&e, "A - xx");
    assert_from_str_variant_err(&e, "yyy - xx");
}

#[test]
fn from_str_from_str_enum_field_format() {
    let e = EnumDef {
        attrs: Attrs::default(),
        variants: vec![
            variant("A", fmt_attrs("{} - {0}"), FieldsKind::Unnamed, vec![unnamed_fmt(0, u32t(), "nnn{}")]),
            variant("Bc", fmt_attrs("yyy + {x}"), FieldsKind::Named, vec![named_fmt("x", u32t(), "mmm{}")]),
        ],
    };
    assert_from_str_variant(&e, "A - nnn10", 0, vec![Value::UInt(10)]);
    assert_from_str_variant(&e, "yyy + mmm50", 1, vec![Value::UInt(50)]);
}

#[test]
fn from_str_from_str_enum_field_regex() {
    let e = EnumDef {
        attrs: Attrs::default(),
        variants: vec![
            variant("A", fmt_attrs("{} - {0}"), FieldsKind::Unnamed, vec![with_regex(unnamed(0, u32t()), "nnn(?P<>.*)")]),
            variant("Bc", fmt_attrs("yyy + {x}"), FieldsKind::Named, vec![with_regex(named("x", u32t()), "mmm(?P<>.*)")]),
        ],
    };
    assert_from_str_variant(&e, "A - nnn10", 0, vec![Value::UInt(10)]);
    assert_from_str_variant(&e, "yyy + mmm50", 1, vec![Value::UInt(50)]);
}

#[test]
fn from_str_auto_bound_newtype() {
    let d = structure(Attrs::default(), FieldsKind::Unnamed, vec![unnamed(0, int_type(IntKind::I32))]);
    assert_from_str(&d, "10", vec![Value::Int(10)]);
}

#[test]
fn from_str_auto_bound_enum() {
    let e = EnumDef {
        attrs: fmt_attrs("{0}"),
        variants: vec![variant("VarA", Attrs::default(), FieldsKind::Unnamed, vec![unnamed(0, int_type(IntKind::I32))])],
    };
    assert_from_str_variant(&e, "10", 0, vec![Value::Int(10)]);
}

#[test]
fn newline_struct() {
    let d = structure(fmt_attrs("{0}"), FieldsKind::Unnamed, vec![unnamed(0, ValueType::Str)]);
    assert_from_str(&d, "\n", vec![Value::Str("\n".to_string())]);
}

#[test]
fn newline_enum() {
    let e = EnumDef {
        attrs: Attrs::default(),
        variants: vec![variant("A", fmt_attrs("{0}"), FieldsKind::Unnamed, vec![unnamed(0, ValueType::Str)])],
    };
    assert_from_str_variant(&e, "\n", 0, vec![Value::Str("\n".to_string())]);
}

#[test]
fn from_str_bound_type_enum() {
    let inner = record(vec![("0", int_type(IntKind::I32))]);
    let e = EnumDef {
        attrs: default_fields_attrs("{0.0}", &["0"]),
        variants: vec![variant("A", Attrs::default(), FieldsKind::Unnamed, vec![unnamed(0, inner)])],
    };
    assert_from_str_variant(&e, "10", 0, vec![rec(vec![("0", Value::Int(10))])]);
}

#[test]
fn from_str_doc_comment_struct() {
    let d = structure(Attrs::default(), FieldsKind::Named, vec![named("a", int_type(IntKind::U8))]);
    assert_from_str(&d, "10", vec![Value::UInt(10)]);
}

#[test]
fn from_str_doc_comment_struct_field() {
    let d = structure(Attrs::default(), FieldsKind::Named, vec![named("a", int_type(IntKind::U8))]);
    assert_from_str(&d, "10", vec![Value::UInt(10)]);
}

#[test]
fn from_str_doc_comment_enum() {
    let e = EnumDef { attrs: Attrs::default(), variants: vec![unit("A")] };
    assert_from_str_variant(&e, "A", 0, vec![]);
}

#[test]
fn from_str_doc_comment_variant() {
    let e = EnumDef { attrs: Attrs::default(), variants: vec![unit("A")] };
    assert_from_str_variant(&e, "A", 0, vec![]);
}

#[test]
fn from_str_attr_enum() {
    let e = EnumDef { attrs: Attrs::default(), variants: vec![unit("A")] };
    assert_from_str_variant(&e, "A", 0, vec![]);
}

#[test]
fn from_str_macro_rule_hygiene() {
    let d = structure(Attrs::default(), FieldsKind::Named, vec![named("x", int_type(IntKind::U8))]);
    assert_from_str(&d, "5", vec![Value::UInt(5)]);
}

#[test]
fn variant_ignore() {
    let e = EnumDef {
        attrs: Attrs::default(),
        variants: vec![
            variant("A", Attrs { ignore: true, ..Default::default() }, FieldsKind::Unnamed, vec![unnamed(0, record(vec![]))]),
            variant("B", fmt_attrs("{0}"), FieldsKind::Unnamed, vec![unnamed(0, ValueType::Str)]),
        ],
    };
    assert_from_str_variant(&e, "123", 1, vec![Value::Str("123".to_string())]);
}

#[test]
fn regex_without_p() {
    let d = structure(regex_attrs("(?<a>.*)"), FieldsKind::Named, vec![named("a", u32t())]);
    assert_from_str(&d, "12", vec![Value::UInt(12)]);
    assert_from_str_err(&d, "aa");
}

#[test]
fn regex_capture_like() {
    let d = structure(regex_attrs(r"(\(?<a>.*)"), FieldsKind::Unit, vec![]);
    assert_from_str(&d, "<a>", vec![]);
}

#[test]
fn regex_capture_prefix_escape() {
    let d = structure(regex_attrs(r"\\(?<a>.*)"), FieldsKind::Named, vec![named("a", u32t())]);
    assert_from_str(&d, r"\12", vec![Value::UInt(12)]);
    assert_from_str_err(&d, "aa");
}

#[test]
fn clippy_use_self() {
    let e = EnumDef { attrs: Attrs::default(), variants: vec![unit("Bar"), unit("Baz")] };
    assert!(e.plans().is_ok());
    assert_from_str_variant(&e, "Baz", 1, vec![]);
}

#[test]
fn no_defualt_std() {
    let d = structure(fmt_attrs("{0}"), FieldsKind::Unnamed, vec![unnamed(0, ValueType::Str)]);
    assert!(d.plan().is_ok());
}

#[test]
fn test_crate() {
    let d = structure(Attrs::default(), FieldsKind::Unnamed, vec![unnamed(0, u32t())]);
    assert_eq!(d.display(&vec![Value::UInt(7)]), Ok("7".to_string()));
    assert!(d.plan().is_ok());
}

#[test]
fn from_str_errors_of_attributes() {
    let no_field = structure(fmt_attrs("{a}"), FieldsKind::Named, vec![named("a", u32t()), named("b", u32t())]);
    assert_eq!(no_field.from_str("1").err(), Some(DeriveError::FieldNotInFormat));
    let unknown = structure(fmt_attrs("{c}"), FieldsKind::Named, vec![named("a", u32t())]);
    assert_eq!(unknown.from_str("1").err(), Some(DeriveError::UnknownField));
    let empty_capture = structure(regex_attrs("(?P<>.*)"), FieldsKind::Unit, vec![]);
    assert_eq!(empty_capture.from_str("x").err(), Some(DeriveError::EmptyCaptureInStruct));
    let default_enum = EnumDef { attrs: default_attrs(), variants: vec![unit("A")] };
    assert_eq!(default_enum.from_str("A").err(), Some(DeriveError::DefaultOnEnum));
    let bad_regex = structure(regex_attrs("(?P<a>[0-9"), FieldsKind::Named, vec![named("a", u32t())]);
    assert_eq!(bad_regex.from_str("1").err(), Some(DeriveError::InvalidRegex));
    let recursive = structure(fmt_attrs("{a}"), FieldsKind::Named, vec![named_fmt("a", u32t(), "<{a}>")]);
    assert_eq!(recursive.from_str("1").err(), Some(DeriveError::RecursiveFormat));
    let no_format = structure(Attrs::default(), FieldsKind::Named, vec![named("a", u32t()), named("b", u32t())]);
    assert_eq!(no_format.from_str("1").err(), Some(DeriveError::FormatRequired));
}

#[test]
fn from_str_error_message_names_the_field() {
    let d = structure(fmt_attrs("{a},{b}"), FieldsKind::Named, vec![named("a", u32t()), named("b", u32t())]);
    let r = d.from_str("1,x");
    match r {
        Ok(Err(e)) => assert_eq!(e, ParseError::with_message("field `b` parse failed.")),
        other => panic!("unexpected {other:?}"),
    }
    match d.from_str("1;2") {
        Ok(Err(e)) => assert_eq!(e, ParseError::new()),
        other => panic!("unexpected {other:?}"),
    }
}

#[test]
fn from_str_literal_text_is_escaped() {
    let d = structure(fmt_attrs("a.b({0})"), FieldsKind::Unnamed, vec![unnamed(0, u32t())]);
    assert_from_str(&d, "a.b(7)", vec![Value::UInt(7)]);
    assert_from_str_err(&d, "axb(7)");
}

#[test]
fn test_crate_mod() {
    let d = structure(Attrs::default(), FieldsKind::Unnamed, vec![unnamed(0, u32t())]);
    assert_eq!(d.display(&vec![Value::UInt(7)]), Ok("7".to_string()));
    assert!(d.plan().is_ok());
}

#[test]
fn from_str_regex_of_definitions() {
    let unit_struct = structure(fmt_attrs("a.b"), FieldsKind::Unit, vec![]);
    assert_eq!(unit_struct.from_str_regex(), Ok(r"a\.b".to_string()));
    let e = EnumDef { attrs: Attrs::default(), variants: vec![unit("A"), unit("B+")] };
    assert_eq!(e.from_str_regex(), Ok(r"A|B\+".to_string()));

    let d = structure(fmt_attrs("{a},{b}"), FieldsKind::Named, vec![named("a", u32t()), named("b", u32t())]);
    let re = d.from_str_regex().unwrap();
    assert!(!re.contains("value_"), "{re}");
    let re = regex::Regex::new(&format!(r"\A(?:{re})")).unwrap();
    assert!(re.is_match("12,50"));
    assert!(!re.is_match("1250"));

    let mixed = EnumDef {
        attrs: Attrs::default(),
        variants: vec![unit("A"), variant("B", fmt_attrs("b{0}"), FieldsKind::Unnamed, vec![unnamed(0, u32t())])],
    };
    let re = mixed.from_str_regex().unwrap();
    assert!(re.starts_with("(A)|"), "{re}");
    let re = regex::Regex::new(&format!(r"\A(?:{re})")).unwrap();
    assert!(re.is_match("A"));
    assert!(re.is_match("b12"));
}

#[test]
fn from_str_error_message_names_the_least_field_key() {
    let d = structure(fmt_attrs("{b},{a}"), FieldsKind::Named, vec![named("b", u32t()), named("a", u32t())]);
    match d.from_str("x,y") {
        Ok(Err(e)) => assert_eq!(e, ParseError::with_message("field `a` parse failed.")),
        other => panic!("unexpected {other:?}"),
    }
    match d.from_str("x,1") {
        Ok(Err(e)) => assert_eq!(e, ParseError::with_message("field `b` parse failed.")),
        other => panic!("unexpected {other:?}"),
    }
    assert_from_str(&d, "2,1", vec![Value::UInt(2), Value::UInt(1)]);
}

#[test]
fn from_str_regex_infer_of_a_field() {
    let x = structure(fmt_attrs("{a}{b}"), FieldsKind::Named, vec![named("a", u32t()), named("b", ValueType::Str)]);
    assert_from_str_err(&x, "1a");
    let mut a = named("a", u32t());
    a.attrs.regex_infer = true;
    let y = structure(fmt_attrs("{a}{b}"), FieldsKind::Named, vec![a, named("b", ValueType::Str)]);
    assert_from_str(&y, "1a", vec![Value::UInt(1), Value::Str("a".to_string())]);
}

#[test]
fn from_str_regex_infer_of_a_struct() {
    let attrs = Attrs { regex_infer: true, ..fmt_attrs("{a}{b}") };
    let d = structure(attrs, FieldsKind::Named, vec![named("a", u32t()), named("b", ValueType::Bool)]);
    assert_from_str(&d, "12true", vec![Value::UInt(12), Value::Bool(true)]);
    assert_from_str_err(&d, "12x");
    let e = EnumDef {
        attrs: Attrs { regex_infer: true, ..fmt_attrs("{0}{1}") },
        variants: vec![variant("A", Attrs::default(), FieldsKind::Unnamed, vec![unnamed(0, u32t()), unnamed(1, ValueType::Str)])],
    };
    assert_from_str_variant(&e, "7x", 0, vec![Value::UInt(7), Value::Str("x".to_string())]);
}

#[test]
fn from_str_regex_comes_before_regex_infer() {
    let mut a = with_regex(named("a", ValueType::Str), "[a-z]+");
    a.attrs.regex_infer = true;
    let d = structure(fmt_attrs("{a}{b}"), FieldsKind::Named, vec![a, named("b", u32t())]);
    assert_from_str(&d, "ab12", vec![Value::Str("ab".to_string()), Value::UInt(12)]);
    let re = d.from_str_regex().unwrap();
    assert!(re.contains("[a-z]+"), "{re}");
    let mut c = named("a", u32t());
    c.attrs.regex_infer = true;
    let inferred = structure(fmt_attrs("{a}"), FieldsKind::Named, vec![c]);
    let re = inferred.from_str_regex().unwrap();
    assert!(re.contains("[0-9]+"), "{re}");
}

#[test]
fn from_str_regex_syntax_is_checked_with_the_definition() {
    let bad = structure(regex_attrs("(?P<a>[0-9"), FieldsKind::Named, vec![named("a", u32t())]);
    assert_eq!(bad.plan().err(), Some(DeriveError::InvalidRegex));
    assert_eq!(bad.from_str_regex().err(), Some(DeriveError::InvalidRegex));
    let digit_name = structure(
        regex_attrs("(?<0.1>.*)"),
        FieldsKind::Unnamed,
        vec![unnamed(0, record(vec![("1", u32t())]))],
    );
    assert_eq!(digit_name.from_str("5").err(), Some(DeriveError::InvalidRegex));
}

#[test]
fn from_str_variant_name_group_with_a_bracket_class() {
    let e = EnumDef { attrs: Attrs::default(), variants: vec![variant("VarA", regex_attrs("(?<>[])])"), FieldsKind::Unit, vec![])] };
    assert_from_str_variant(&e, "VarA", 0, vec![]);
    assert_from_str_variant_err(&e, "VarA]");
    let nested = EnumDef { attrs: Attrs::default(), variants: vec![variant("B", regex_attrs("x(?<>[a[)]])y"), FieldsKind::Unit, vec![])] };
    assert_from_str_variant(&nested, "xBy", 0, vec![]);
}

#[test]
fn from_str_enum_falls_through_to_the_next_variant() {
    let e = EnumDef {
        attrs: fmt_attrs("{0}"),
        variants: vec![
            variant("A", Attrs::default(), FieldsKind::Unnamed, vec![unnamed(0, int_type(IntKind::U8))]),
            variant("B", Attrs::default(), FieldsKind::Unnamed, vec![unnamed(0, u32t())]),
        ],
    };
    assert_from_str_variant(&e, "5", 0, vec![Value::UInt(5)]);
    assert_from_str_variant(&e, "300", 1, vec![Value::UInt(300)]);
    assert_from_str_variant_err(&e, "x");
}

#[test]
fn verbose_regex_comment_does_not_close_the_variant_group() {
    let e = EnumDef {
        attrs: Attrs::default(),
        variants: vec![variant(
            "A",
            regex_attrs("(?x) (?P<> # the name (of the variant)\n ) : (?P<0> [0-9]+ )"),
            FieldsKind::Unnamed,
            vec![unnamed(0, u32t())],
        )],
    };
    assert_from_str_variant(&e, "A:5", 0, vec![Value::UInt(5)]);
}

#[test]
fn verbose_flag_ends_with_its_group() {
    let e = EnumDef {
        attrs: Attrs::default(),
        variants: vec![variant(
            "A",
            regex_attrs("(?x: a # b\n)(?P<>#)"),
            FieldsKind::Unit,
            vec![],
        )],
    };
    assert_from_str_variant(&e, "aA", 0, vec![]);
}
