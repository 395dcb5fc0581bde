use tdlib_rs::errors::ParamParseError;
use tdlib_rs::tl::Type;

#[test]
fn check_empty() {
    assert_eq!(Type::from_str(""), Err(ParamParseError::Empty));
    assert_eq!(Type::from_str("   "), Err(ParamParseError::Empty));
}

#[test]
fn check_simple() {
    assert_eq!(
        Type::from_str("foo"),
        Ok(Type {
            name: "foo".into(),
            bare: true,
            generic_arg: None,
        })
    );
    assert_eq!(
        Type::from_str("  foo  "),
        Ok(Type {
            name: "foo".into(),
            bare: true,
            generic_arg: None,
        })
    );
}

#[test]
fn check_bare() {
    assert!(matches!(Type::from_str("foo"), Ok(Type { bare: true, .. })));
    assert!(matches!(
        Type::from_str("Foo"),
        Ok(Type { bare: false, .. })
    ));
    assert!(matches!(
        Type::from_str("  Foo  "),
        Ok(Type { bare: false, .. })
    ));
}

#[test]
fn check_generic_arg() {
    assert!(matches!(
        Type::from_str("foo"),
        Ok(Type {
            generic_arg: None,
            ..
        })
    ));
    assert!(match Type::from_str("foo<bar>") {
        Ok(Type {
            generic_arg: Some(x),
            ..
        }) => *x == "bar".parse().unwrap(),
        _ => false,
    });
    assert!(match Type::from_str("foo<bar<baz>>") {
        Ok(Type {
            generic_arg: Some(x),
            ..
        }) => *x == "bar<baz>".parse().unwrap(),
        _ => false,
    });
    assert!(match Type::from_str("foo < bar >") {
        Ok(Type {
            generic_arg: Some(x),
            ..
        }) => *x == "bar".parse().unwrap(),
        _ => false,
    });
    assert!(match Type::from_str("foo < bar < baz > >") {
        Ok(Type {
            generic_arg: Some(x),
            ..
        }) => *x == "bar < baz >".parse().unwrap(),
        _ => false,
    });
}

#[test]
fn check_invalid_generic() {
    assert_eq!(
        Type::from_str("foo<bar"),
        Err(ParamParseError::InvalidGeneric)
    );
    assert_eq!(
        Type::from_str("foo< >"),
        Err(ParamParseError::InvalidGeneric)
    );
    assert_eq!(Type::from_str("<>"), Err(ParamParseError::Empty));
}
