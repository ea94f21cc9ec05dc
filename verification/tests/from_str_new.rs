use parse_display::attrs::{attrs_from_args, AttrArg, AttrKind};
use parse_display::def::{Attrs, EnumDef, FieldDef, FieldsKind, StructDef, VariantDef};
use parse_display::error::{DeriveError, ParseError};
use parse_display::field_key::FieldKey;
use parse_display::from_str::{new_from_option, new_from_result};
use parse_display::value::{IntKind, Value, ValueType};

fn usize_t() -> ValueType {
    ValueType::Int(IntKind::Usize)
}

fn new_attrs(format: Option<&str>) -> Attrs {
    Attrs { format: format.map(|f| f.to_string()), new: true, ..Default::default() }
}

fn named(name: &str) -> FieldDef {
    FieldDef { key: FieldKey::Named(name.to_string()), ty: usize_t(), attrs: Attrs::default() }
}

fn unnamed(i: usize) -> FieldDef {
    FieldDef { key: FieldKey::Unnamed(i), ty: usize_t(), attrs: Attrs::default() }
}

fn uint(v: &Value) -> u128 {
    match v {
        Value::UInt(n) => *n,
        _ => panic!("not an unsigned integer"),
    }
}

/// Parses `s` as the fields of `d`, then hands them to `make`, as the
/// derived `FromStr` does with a `#[from_str(new = ...)]` expression.
fn parse_with_option<T>(d: &StructDef, s: &str, make: impl Fn(&[Value]) -> Option<T>) -> Result<T, ParseError> {
    let values = d.from_str(s).unwrap()?;
    new_from_option(make(&values))
}

fn parse_with_result<T, E>(d: &StructDef, s: &str, make: impl Fn(&[Value]) -> Result<T, E>) -> Result<T, ParseError> {
    let values = d.from_str(s).unwrap()?;
    new_from_result(make(&values))
}

#[derive(Debug, PartialEq)]
struct MyNonZeroUSize {
    value: usize,
}

#[test]
fn test() {
    let d = StructDef { attrs: new_attrs(None), kind: FieldsKind::Named, fields: vec![named("value")] };
    let make = |v: &[Value]| {
        let value = uint(&v[0]) as usize;
        if value == 0 {
            None
        } else {
            Some(MyNonZeroUSize { value })
        }
    };
    assert_eq!(parse_with_option(&d, "1", make), Ok(MyNonZeroUSize { value: 1 }));
    assert!(parse_with_option(&d, "0", make).is_err());
}

#[test]
fn new_return_option() {
    let d = StructDef { attrs: new_attrs(None), kind: FieldsKind::Unnamed, fields: vec![unnamed(0)] };
    let make = |v: &[Value]| if uint(&v[0]) == 1 { None } else { Some(uint(&v[0])) };
    assert_eq!(parse_with_option(&d, "0", make), Ok(0));
    assert!(parse_with_option(&d, "1", make).is_err());
}

#[test]
fn new_return_result() {
    struct ParseNon1UsizeError;
    let d = StructDef { attrs: new_attrs(None), kind: FieldsKind::Unnamed, fields: vec![unnamed(0)] };
    let make = |v: &[Value]| if uint(&v[0]) == 1 { Err(ParseNon1UsizeError) } else { Ok(uint(&v[0])) };
    assert_eq!(parse_with_result(&d, "0", make), Ok(0));
    assert!(parse_with_result(&d, "1", make).is_err());
}

#[test]
fn new_return_value() {
    let d = StructDef { attrs: new_attrs(None), kind: FieldsKind::Unnamed, fields: vec![unnamed(0)] };
    let values = d.from_str("0").unwrap().unwrap();
    assert_eq!(uint(&values[0]), 0);
}

#[test]
fn new_tuple() {
    let d = StructDef { attrs: new_attrs(None), kind: FieldsKind::Unnamed, fields: vec![unnamed(0)] };
    let make = |v: &[Value]| if uint(&v[0]) == 0 { None } else { Some(uint(&v[0])) };
    assert_eq!(parse_with_option(&d, "1", make), Ok(1));
    assert!(parse_with_option(&d, "0", make).is_err());
}

#[test]
fn new_tuple_field_x2() {
    let d = StructDef { attrs: new_attrs(Some("{0}-{1}")), kind: FieldsKind::Unnamed, fields: vec![unnamed(0), unnamed(1)] };
    let make = |v: &[Value]| {
        let (start, end) = (uint(&v[0]), uint(&v[1]));
        if start <= end {
            Some((start, end))
        } else {
            None
        }
    };
    assert_eq!(parse_with_option(&d, "1-2", make), Ok((1, 2)));
    assert!(parse_with_option(&d, "2-1", make).is_err());
}

#[test]
fn new_struct() {
    let d = StructDef { attrs: new_attrs(None), kind: FieldsKind::Named, fields: vec![named("value")] };
    let make = |v: &[Value]| if uint(&v[0]) == 1 { None } else { Some(uint(&v[0])) };
    assert_eq!(parse_with_option(&d, "0", make), Ok(0));
    assert!(parse_with_option(&d, "1", make).is_err());
}

#[test]
fn new_struct_field_x2() {
    let d = StructDef {
        attrs: new_attrs(Some("{start}-{end}")),
        kind: FieldsKind::Named,
        fields: vec![named("start"), named("end")],
    };
    let make = |v: &[Value]| {
        let (start, end) = (uint(&v[0]), uint(&v[1]));
        if start <= end {
            Some((start, end))
        } else {
            None
        }
    };
    assert_eq!(parse_with_option(&d, "1-2", make), Ok((1, 2)));
    assert!(parse_with_option(&d, "2-1", make).is_err());
}

/// The first way `s` parses as a variant whose `new` expression makes a
/// value; none gives the parse error.
fn parse_enum_with_option<T>(e: &EnumDef, s: &str, make: impl Fn(usize, &[Value]) -> Option<T>) -> Result<T, ParseError> {
    let cands = e.candidates(s).unwrap()?;
    for (vi, values) in cands {
        if let Ok(v) = new_from_option(make(vi, &values)) {
            return Ok(v);
        }
    }
    Err(ParseError::new())
}

#[test]
fn new_enum() {
    let variant = |name: &str| VariantDef {
        name: name.to_string(),
        attrs: new_attrs(None),
        kind: FieldsKind::Unnamed,
        fields: vec![unnamed(0)],
    };
    let e = EnumDef {
        attrs: Attrs { format: Some("{} {0}".to_string()), ..Default::default() },
        variants: vec![variant("X"), variant("Y")],
    };
    let make = |vi: usize, v: &[Value]| if uint(&v[0]) == 0 { None } else { Some((vi, uint(&v[0]))) };
    assert_eq!(parse_enum_with_option(&e, "X 1", make), Ok((0, 1)));
    assert_eq!(parse_enum_with_option(&e, "Y 1", make), Ok((1, 1)));
    assert!(parse_enum_with_option(&e, "X 0", make).is_err());
    assert!(parse_enum_with_option(&e, "Y 0", make).is_err());
}

#[test]
fn candidates_keep_every_matching_variant_in_order() {
    let variant = |name: &str, f: &str| VariantDef {
        name: name.to_string(),
        attrs: Attrs { format: Some(f.to_string()), new: true, ..Default::default() },
        kind: FieldsKind::Unnamed,
        fields: vec![unnamed(0)],
    };
    let e = EnumDef { attrs: Attrs::default(), variants: vec![variant("A", "{0}"), variant("B", "x{0}"), variant("C", "{0}")] };
    let cands = e.candidates("7").unwrap().unwrap();
    let got: Vec<(usize, u128)> = cands.iter().map(|(vi, v)| (*vi, uint(&v[0]))).collect();
    assert_eq!(got, vec![(0, 7), (2, 7)]);
    assert!(e.candidates("y").unwrap().unwrap().is_empty());
}

#[test]
fn new_option_none_and_result_err_are_parse_errors() {
    assert_eq!(new_from_option(Some(3)), Ok(3));
    assert_eq!(new_from_option::<u8>(None).unwrap_err().to_string(), "parse failed.");
    assert_eq!(new_from_result::<u8, ()>(Ok(4)), Ok(4));
    assert_eq!(new_from_result::<u8, ()>(Err(())).unwrap_err().to_string(), "parse failed.");
}

#[test]
fn new_is_taken_by_from_str_only() {
    let a = attrs_from_args(&vec![(AttrKind::FromStr, AttrArg::New)]).unwrap();
    assert!(a.new);
    assert!(matches!(attrs_from_args(&vec![(AttrKind::Display, AttrArg::New)]), Err(DeriveError::InvalidAttribute)));
}

fn opt_field(name: &str, format: Option<&str>) -> FieldDef {
    FieldDef {
        key: FieldKey::Named(name.to_string()),
        ty: ValueType::Int(IntKind::U32),
        attrs: Attrs { format: format.map(|f| f.to_string()), opt: true, ..Default::default() },
    }
}

fn some(n: u128) -> Value {
    Value::Opt(Some(Box::new(Value::UInt(n))))
}

#[test]
fn opt_field_display() {
    let d = StructDef { attrs: Attrs::default(), kind: FieldsKind::Named, fields: vec![opt_field("a", Some("a={}"))] };
    assert_eq!(d.display(&vec![some(10)]).unwrap(), "a=10");
    assert_eq!(d.display(&vec![Value::Opt(None)]).unwrap(), "");
}

#[test]
fn opt_field_from_str() {
    let d = StructDef { attrs: Attrs::default(), kind: FieldsKind::Named, fields: vec![opt_field("a", Some("a={}"))] };
    assert_eq!(d.from_str("a=10").unwrap(), Ok(vec![some(10)]));
    assert_eq!(d.from_str("").unwrap(), Ok(vec![Value::Opt(None)]));
    assert!(d.from_str("a=").unwrap().is_err());
    assert!(d.from_str("b=1").unwrap().is_err());
}

#[test]
fn opt_field_in_struct_format() {
    let b = FieldDef { key: FieldKey::Named("b".to_string()), ty: ValueType::Int(IntKind::U32), attrs: Attrs::default() };
    let d = StructDef {
        attrs: Attrs { format: Some("[{a}]{b}".to_string()), ..Default::default() },
        kind: FieldsKind::Named,
        fields: vec![opt_field("a", Some("x{}")), b],
    };
    assert_eq!(d.display(&vec![some(1), Value::UInt(2)]).unwrap(), "[x1]2");
    assert_eq!(d.display(&vec![Value::Opt(None), Value::UInt(2)]).unwrap(), "[]2");
    assert_eq!(d.from_str("[x1]2").unwrap(), Ok(vec![some(1), Value::UInt(2)]));
    assert_eq!(d.from_str("[]2").unwrap(), Ok(vec![Value::Opt(None), Value::UInt(2)]));
}

#[test]
fn opt_field_needs_a_pattern_of_its_own() {
    let d = StructDef { attrs: Attrs::default(), kind: FieldsKind::Named, fields: vec![opt_field("a", None)] };
    assert!(matches!(d.from_str("1"), Err(DeriveError::OptWithoutPattern)));
    assert_eq!(d.display(&vec![some(1)]).unwrap(), "1");
    assert_eq!(d.display(&vec![Value::Opt(None)]).unwrap(), "");
}

#[test]
fn opt_is_taken_by_display_only() {
    assert!(attrs_from_args(&vec![(AttrKind::Display, AttrArg::Opt)]).unwrap().opt);
    assert!(matches!(attrs_from_args(&vec![(AttrKind::FromStr, AttrArg::Opt)]), Err(DeriveError::InvalidAttribute)));
}

#[test]
fn from_str_is_the_first_candidate() {
    let variant = |name: &str, f: &str, fields: Vec<FieldDef>| VariantDef {
        name: name.to_string(),
        attrs: Attrs { format: Some(f.to_string()), ..Default::default() },
        kind: if fields.is_empty() { FieldsKind::Unit } else { FieldsKind::Unnamed },
        fields,
    };
    let e = EnumDef {
        attrs: Attrs::default(),
        variants: vec![variant("A", "{0}", vec![unnamed(0)]), variant("B", "7", vec![]), variant("C", "{0}", vec![unnamed(0)])],
    };
    for s in ["7", "8", "x"] {
        let first = e.candidates(s).unwrap().unwrap().into_iter().next();
        match (e.from_str(s).unwrap(), first) {
            (Ok((vi, v)), Some((ci, cv))) => {
                assert_eq!(vi, ci);
                assert_eq!(v, cv);
            },
            (Err(err), None) => assert_eq!(err.to_string(), "parse failed."),
            (got, first) => panic!("{s:?}: {got:?} against {first:?}"),
        }
    }
    assert_eq!(e.from_str("7").unwrap().unwrap().0, 1);
}
