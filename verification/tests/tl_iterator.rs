use tdlib_rs::errors::ParseError;
use tdlib_rs::TlIterator;

#[test]
fn parse_bad_separator() {
    let mut it = TlIterator::new("---foo---".into());
    assert_eq!(it.next(), Some(Err(ParseError::UnknownSeparator)));
    assert_eq!(it.next(), None);
}

#[test]
fn parse_file() {
    let mut it = TlIterator::new(
        "
            // leading; comment
            first = t; // inline comment
            second and bad;
            third = t;
            // trailing comment
        "
        .into(),
    );

    assert_eq!(it.next().unwrap().unwrap().name, "first");
    assert!(it.next().unwrap().is_err());
    assert_eq!(it.next().unwrap().unwrap().name, "third");
    assert_eq!(it.next(), None);
}

#[test]
fn quoted_semicolon() {
    let mut it = TlIterator::new(r#"quoted = "hello; world"; // not separator"#.into());
    let def = it.next().unwrap().unwrap();
    assert_eq!(def.name, "quoted");
    assert_eq!(it.next(), None);
}
