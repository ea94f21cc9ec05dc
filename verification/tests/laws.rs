use parse_display::def::{Attrs, EnumDef, FieldDef, FieldsKind, StructDef, VariantDef, WithFormat};
use parse_display::field_key::{join, FieldKey};
use parse_display::format::{escape_fmt, DisplayFormat};
use parse_display::formats::{delimiter, fmt, parse_with};
use parse_display::value::{IntKind, Value, ValueType};

fn unit_variant(name: &str) -> VariantDef {
    VariantDef { name: name.to_string(), attrs: Attrs::default(), kind: FieldsKind::Unit, fields: vec![] }
}

#[test]
fn unit_enum_display_then_parse() {
    let e = EnumDef {
        attrs: Attrs { style: Some("kebab-case".to_string()), ..Default::default() },
        variants: vec![unit_variant("VarA"), unit_variant("VarB"), unit_variant("OtherName")],
    };
    for vi in 0..3 {
        let text = e.display(vi, &vec![]).unwrap();
        match e.from_str(&text) {
            Ok(Ok((i, values))) => {
                assert_eq!(i, vi);
                assert!(values.is_empty());
            },
            other => panic!("{text:?}: {other:?}"),
        }
    }
    assert_eq!(e.display(2, &vec![]), Ok("other-name".to_string()));
}

#[test]
fn unit_enum_same_styled_names_parse_to_the_first() {
    let e = EnumDef {
        attrs: Attrs { style: Some("lowercase".to_string()), ..Default::default() },
        variants: vec![unit_variant("Ab"), unit_variant("AB")],
    };
    assert_eq!(e.display(1, &vec![]), Ok("ab".to_string()));
    match e.from_str("ab") {
        Ok(Ok((i, _))) => assert_eq!(i, 0),
        other => panic!("{other:?}"),
    }
}

#[test]
fn newtype_is_written_as_its_field() {
    let d = StructDef {
        attrs: Attrs::default(),
        kind: FieldsKind::Named,
        fields: vec![FieldDef { key: FieldKey::Named("value".to_string()), ty: ValueType::Str, attrs: Attrs::default() }],
    };
    assert_eq!(d.display(&vec![Value::Str("x y".to_string())]), Ok("x y".to_string()));
}

#[test]
fn field_regex_of_any_text_is_the_default() {
    let field = |regex: Option<&str>| FieldDef {
        key: FieldKey::Named("a".to_string()),
        ty: ValueType::Int(IntKind::U8),
        attrs: Attrs { regex: regex.map(|r| r.to_string()), ..Default::default() },
    };
    let with = StructDef { attrs: Attrs { format: Some("<{a}>".to_string()), ..Default::default() }, kind: FieldsKind::Named, fields: vec![field(Some("(?s:.*?)"))] };
    let without = StructDef { attrs: Attrs { format: Some("<{a}>".to_string()), ..Default::default() }, kind: FieldsKind::Named, fields: vec![field(None)] };
    assert_eq!(with.from_str_regex(), without.from_str_regex());
    for s in ["<12>", "<x>", "12"] {
        assert_eq!(with.from_str(s), without.from_str(s));
    }
}

#[test]
fn values_read_back_what_display_writes() {
    let cases = vec![
        (ValueType::Int(IntKind::I8), Value::Int(-128)),
        (ValueType::Int(IntKind::I64), Value::Int(i64::MIN as i128)),
        (ValueType::Int(IntKind::U64), Value::UInt(u64::MAX as u128)),
        (ValueType::Bool, Value::Bool(false)),
        (ValueType::Char, Value::Char('{')),
        (ValueType::Str, Value::Str("a,b".to_string())),
    ];
    for (ty, v) in cases {
        let text = fmt().write(&v).unwrap();
        assert_eq!(parse_with(&fmt(), &ty, &text), Ok(v));
    }
}

#[test]
fn struct_display_then_parse() {
    let d = StructDef {
        attrs: Attrs { format: Some("{a}/{b}/{c}".to_string()), ..Default::default() },
        kind: FieldsKind::Named,
        fields: vec![
            FieldDef { key: FieldKey::Named("a".to_string()), ty: ValueType::Int(IntKind::I32), attrs: Attrs::default() },
            FieldDef { key: FieldKey::Named("b".to_string()), ty: ValueType::Bool, attrs: Attrs::default() },
            FieldDef { key: FieldKey::Named("c".to_string()), ty: ValueType::Char, attrs: Attrs::default() },
        ],
    };
    let values = vec![Value::Int(-7), Value::Bool(true), Value::Char('z')];
    let text = d.display(&values).unwrap();
    assert_eq!(text, "-7/true/z");
    assert_eq!(d.from_str(&text), Ok(Ok(values)));
}

#[test]
fn join_display_then_parse() {
    let items = vec![Value::Int(-1), Value::Int(20), Value::Int(300)];
    let d = delimiter(" | ");
    let text = d.write(&items).unwrap();
    assert_eq!(text, "-1 | 20 | 300");
    assert_eq!(d.parse(&ValueType::Int(IntKind::I16), &text), Ok(items));
}

#[test]
fn unsigned_join_display_then_parse() {
    let items = vec![Value::UInt(12), Value::UInt(0), Value::UInt(4294967295)];
    let d = delimiter("x");
    let text = d.write(&items).unwrap();
    assert_eq!(text, "12x0x4294967295");
    assert_eq!(d.parse(&ValueType::Int(IntKind::U32), &text), Ok(items));
}

#[test]
fn escaped_text_reads_back_as_text() {
    for s in ["a{b}c", "{{}}", "", "plain"] {
        let escaped = escape_fmt(s);
        let f = DisplayFormat::parse(&escaped).unwrap();
        assert_eq!(f.try_unescape(), Some(s.to_string()));
    }
}

#[test]
fn paths_split_and_join_back() {
    for s in ["a.b.0", "x", "fn.y"] {
        let keys = FieldKey::from_str_deep(s);
        assert_eq!(join(&keys, "."), s);
    }
}

#[test]
fn field_formats_read_back_what_they_write() {
    let list = ValueType::List(Box::new(ValueType::Int(IntKind::I32)));
    let join_field = FieldDef {
        key: FieldKey::Named("xs".to_string()),
        ty: list,
        attrs: Attrs { with: Some(WithFormat::Join("; ".to_string())), ..Default::default() },
    };
    let infer_field = FieldDef {
        key: FieldKey::Named("n".to_string()),
        ty: ValueType::Int(IntKind::U8),
        attrs: Attrs { regex_infer: true, ..Default::default() },
    };
    let d = StructDef {
        attrs: Attrs { format: Some("{n}[{xs}]".to_string()), ..Default::default() },
        kind: FieldsKind::Named,
        fields: vec![join_field, infer_field],
    };
    let values = vec![Value::List(vec![Value::Int(-1), Value::Int(2), Value::Int(30)]), Value::UInt(7)];
    let text = d.display(&values).unwrap();
    assert_eq!(text, "7[-1; 2; 30]");
    assert_eq!(d.from_str(&text), Ok(Ok(values)));
}

#[test]
fn ignored_variants_are_never_parsed() {
    let ignored = VariantDef {
        name: "A".to_string(),
        attrs: Attrs { ignore: true, format: Some("{0}".to_string()), ..Default::default() },
        kind: FieldsKind::Unnamed,
        fields: vec![FieldDef { key: FieldKey::Unnamed(0), ty: ValueType::Int(IntKind::U32), attrs: Attrs::default() }],
    };
    let b = VariantDef {
        name: "B".to_string(),
        attrs: Attrs { format: Some("{0}".to_string()), ..Default::default() },
        kind: FieldsKind::Unnamed,
        fields: vec![FieldDef { key: FieldKey::Unnamed(0), ty: ValueType::Int(IntKind::U32), attrs: Attrs::default() }],
    };
    let e = EnumDef { attrs: Attrs::default(), variants: vec![ignored, b, unit_variant("A")] };
    assert_eq!(e.from_str("1"), Ok(Ok((1, vec![Value::UInt(1)]))));
    assert_eq!(e.from_str("A"), Ok(Ok((2, vec![]))));
}

#[test]
fn a_path_named_twice_has_one_group() {
    let rec = ValueType::Record(vec![(FieldKey::Named("x".to_string()), ValueType::Int(IntKind::U32))]);
    let d = StructDef {
        attrs: Attrs { format: Some("{a.x}-{a.x}".to_string()), ..Default::default() },
        kind: FieldsKind::Named,
        fields: vec![FieldDef { key: FieldKey::Named("a".to_string()), ty: rec, attrs: Attrs { default: true, ..Default::default() } }],
    };
    let p = d.plan().unwrap();
    assert_eq!(p.next, 2);
    assert_eq!(p.entries[0].deep.len(), 1);
}

#[test]
fn lowercase_twice_is_lowercase() {
    let e = |name: &str| EnumDef {
        attrs: Attrs { style: Some("lowercase".to_string()), ..Default::default() },
        variants: vec![unit_variant(name)],
    };
    let once = e("VarAB1_x").display(0, &vec![]).unwrap();
    assert_eq!(once, "varab1x");
    assert_eq!(e(&once).display(0, &vec![]).unwrap(), once);
    let snake = |name: &str| EnumDef {
        attrs: Attrs { style: Some("snake_case".to_string()), ..Default::default() },
        variants: vec![unit_variant(name)],
    };
    let s1 = snake("VarAB1Cd").display(0, &vec![]).unwrap();
    assert_eq!(snake(&s1).display(0, &vec![]).unwrap(), s1);
}
