use parse_display::def::{Attrs, FieldDef, FieldsKind, StructDef};
use parse_display::field_key::FieldKey;
use parse_display::value::{IntKind, Value, ValueType};

fn assert_both(d: &StructDef, s: &str, values: Vec<Value>) {
    assert_eq!(d.display(&values), Ok(s.to_string()));
    match d.from_str(s) {
        Ok(Ok(v)) => assert_eq!(v, values, "input = {s:?}"),
        other => panic!("{s:?} parse failed: {other:?}"),
    }
}

fn field(key: FieldKey) -> FieldDef {
    FieldDef { key, ty: ValueType::Int(IntKind::U32), attrs: Attrs::default() }
}

#[test]
fn both_newtype() {
    let d = StructDef { attrs: Attrs::default(), kind: FieldsKind::Unnamed, fields: vec![field(FieldKey::Unnamed(0))] };
    assert_both(&d, "12", vec![Value::UInt(12)]);
}

#[test]
fn both_struct_format() {
    let d = StructDef {
        attrs: Attrs { format: Some("{a},{b}".to_string()), ..Default::default() },
        kind: FieldsKind::Named,
        fields: vec![field(FieldKey::Named("a".to_string())), field(FieldKey::Named("b".to_string()))],
    };
    assert_both(&d, "12,50", vec![Value::UInt(12), Value::UInt(50)]);
}
