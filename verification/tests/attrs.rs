use parse_display::attrs::{attrs_from_args, AttrArg, AttrKind};
use parse_display::def::WithFormat;
use parse_display::error::DeriveError;

#[test]
fn attribute_arguments_gather_in_order() {
    let args = vec![
        (AttrKind::Display, AttrArg::Format("{a}".to_string())),
        (AttrKind::Display, AttrArg::Style("snake_case".to_string())),
        (AttrKind::FromStr, AttrArg::Regex("(?<a>.*)".to_string())),
        (AttrKind::FromStr, AttrArg::DefaultFields(vec!["b".to_string()])),
        (AttrKind::FromStr, AttrArg::DefaultFields(vec!["c".to_string(), "d".to_string()])),
        (AttrKind::FromStr, AttrArg::RegexInfer),
        (AttrKind::FromStr, AttrArg::Ignore),
        (AttrKind::Display, AttrArg::Bound),
        (AttrKind::FromStr, AttrArg::Dump),
        (AttrKind::Display, AttrArg::Format("{b}".to_string())),
    ];
    let a = attrs_from_args(&args).unwrap();
    assert_eq!(a.format, Some("{b}".to_string()));
    assert_eq!(a.style, Some("snake_case".to_string()));
    assert_eq!(a.regex, Some("(?<a>.*)".to_string()));
    assert_eq!(a.default_fields, vec!["b".to_string(), "c".to_string(), "d".to_string()]);
    assert!(a.regex_infer && a.ignore && !a.default);
}

#[test]
fn attribute_with_later_display_with_wins() {
    let a = attrs_from_args(&vec![
        (AttrKind::FromStr, AttrArg::With(WithFormat::Join(";".to_string()))),
        (AttrKind::Display, AttrArg::With(WithFormat::Join(",".to_string()))),
    ])
    .unwrap();
    assert!(matches!(a.with, Some(WithFormat::Join(ref d)) if d == ","));
    assert!(a.from_str_with.is_none());
    let b = attrs_from_args(&vec![
        (AttrKind::Display, AttrArg::With(WithFormat::Fmt)),
        (AttrKind::FromStr, AttrArg::With(WithFormat::RegexInfer)),
    ])
    .unwrap();
    assert!(matches!(b.with, Some(WithFormat::Fmt)));
    assert!(matches!(b.from_str_with, Some(WithFormat::RegexInfer)));
}

#[test]
fn attribute_arguments_in_the_wrong_attribute_are_refused() {
    let refused = [
        (AttrKind::FromStr, AttrArg::Format("{a}".to_string())),
        (AttrKind::FromStr, AttrArg::Style("lowercase".to_string())),
        (AttrKind::Display, AttrArg::Regex("x".to_string())),
        (AttrKind::Display, AttrArg::Default),
        (AttrKind::Display, AttrArg::Ignore),
        (AttrKind::Display, AttrArg::RegexInfer),
        (AttrKind::FromStr, AttrArg::Crate),
        (AttrKind::FromStr, AttrArg::Other("new".to_string())),
    ];
    for (k, arg) in refused {
        let r = attrs_from_args(&vec![(AttrKind::Display, AttrArg::Format("{x}".to_string())), (k, arg)]);
        assert_eq!(r.err(), Some(DeriveError::InvalidAttribute));
    }
    assert!(attrs_from_args(&vec![]).is_ok());
}
