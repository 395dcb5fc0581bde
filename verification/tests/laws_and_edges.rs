use std::str::FromStr;

use tdlib_rs::errors::{ParamParseError, ParseError};
use tdlib_rs::tl::{Category, Definition, Type};
use tdlib_rs::{parse_tl_file, TlIterator};

#[test]
fn type_text_round_trip() {
    let t = Type::from_str("foo < bar < baz > >").unwrap();
    assert_eq!(t.to_string(), "foo<bar<baz>>");
    assert_eq!(Type::from_str(&t.to_string()), Ok(t));
}

#[test]
fn type_text_round_trip_with_odd_name() {
    let t = Type::from_str(" a>b < c > ").unwrap();
    assert_eq!(t.name, "a>b");
    assert_eq!(t.to_string(), "a>b<c>");
    assert_eq!(Type::from_str(&t.to_string()), Ok(t));
}

#[test]
fn type_ignores_surrounding_whitespace() {
    assert_eq!(Type::from_str("\u{3000} Vector<int>\u{a0}\t"), Type::from_str("Vector<int>"));
    assert_eq!(Type::from_str("\n\r foo"), Type::from_str("foo"));
}

#[test]
fn type_drops_text_after_closing_bracket() {
    let t = Type::from_str("foo<bar>baz").unwrap();
    assert_eq!(t.name, "foo");
    assert_eq!(t.generic_arg, Some(Box::new(Type::from_str("bar").unwrap())));
}

#[test]
fn type_bare_needs_ascii_lowercase() {
    assert!(!Type::from_str("_foo").unwrap().bare);
    assert!(!Type::from_str("éa").unwrap().bare);
    assert!(Type::from_str("z").unwrap().bare);
}

#[test]
fn type_generic_errors() {
    assert_eq!(Type::from_str(" < bar >"), Err(ParamParseError::Empty));
    assert_eq!(Type::from_str("foo<bar<>>"), Err(ParamParseError::InvalidGeneric));
    assert_eq!(Type::from_str("foo<<>"), Err(ParamParseError::InvalidGeneric));
}

#[test]
fn type_from_str_trait() {
    let t: Type = "vector<int>".parse().unwrap();
    assert_eq!(t.generic_arg.unwrap().name, "int");
}

#[test]
fn error_messages() {
    assert_eq!(ParamParseError::Empty.message(), "empty parameter");
    assert_eq!(ParamParseError::InvalidGeneric.message(), "invalid generic argument");
    assert_eq!(
        ParamParseError::NotImplemented.message(),
        "parameter parsing not implemented"
    );
    assert_eq!(ParseError::Empty.message(), "empty definition");
    assert_eq!(
        ParseError::InvalidParam(ParamParseError::InvalidGeneric).message(),
        "invalid parameter: invalid generic argument"
    );
    assert_eq!(ParseError::MissingName.message(), "missing name in definition");
    assert_eq!(ParseError::MissingType.message(), "missing type in definition");
    assert_eq!(
        ParseError::NotImplemented.message(),
        "definition parsing not implemented"
    );
    assert_eq!(ParseError::UnknownSeparator.message(), "unknown separator in TL file");
}

#[test]
fn error_source() {
    assert_eq!(
        ParseError::InvalidParam(ParamParseError::Empty).source(),
        Some(ParamParseError::Empty)
    );
    assert_eq!(ParseError::MissingType.source(), None);
}

#[test]
fn definition_with_params() {
    let d = Definition::from_str("user id:int53 name:string tags:vector<string> = User").unwrap();
    assert_eq!(d.name, "user");
    assert_eq!(d.params.len(), 3);
    assert_eq!(d.params[0].name, "id");
    assert_eq!(d.params[0].ty, Type::from_str("int53").unwrap());
    assert_eq!(d.params[2].ty, Type::from_str("vector<string>").unwrap());
    assert_eq!(d.ty, Type::from_str("User").unwrap());
    assert_eq!(d.category, Category::Types);
}

#[test]
fn definition_errors() {
    assert_eq!(Definition::from_str("  "), Err(ParseError::Empty));
    assert_eq!(Definition::from_str("// only a comment"), Err(ParseError::Empty));
    assert_eq!(Definition::from_str("= T"), Err(ParseError::MissingName));
    assert_eq!(Definition::from_str("x = "), Err(ParseError::MissingType));
    assert_eq!(Definition::from_str("x y"), Err(ParseError::MissingType));
    assert_eq!(
        Definition::from_str("x y = T"),
        Err(ParseError::InvalidParam(ParamParseError::NotImplemented))
    );
    assert_eq!(
        Definition::from_str("x :int = T"),
        Err(ParseError::InvalidParam(ParamParseError::Empty))
    );
    assert_eq!(
        Definition::from_str("x a:vector<> = T"),
        Err(ParseError::InvalidParam(ParamParseError::InvalidGeneric))
    );
}

#[test]
fn definition_ignores_comments() {
    let d = Definition::from_str("//@description A user\nuser id:int53 = User // trailing").unwrap();
    assert_eq!(d.name, "user");
    assert_eq!(d.params.len(), 1);
    assert_eq!(d.ty.name, "User");
}

#[test]
fn separators_switch_category() {
    let mut it = parse_tl_file(
        "a = A;\n---functions---\nf x:int = B;\ng = C;\n---types---\nt = D;".to_string(),
    );
    let a = it.next().unwrap().unwrap();
    assert_eq!((a.name.as_str(), a.category), ("a", Category::Types));
    let f = it.next().unwrap().unwrap();
    assert_eq!((f.name.as_str(), f.category), ("f", Category::Functions));
    let g = it.next().unwrap().unwrap();
    assert_eq!((g.name.as_str(), g.category), ("g", Category::Functions));
    let t = it.next().unwrap().unwrap();
    assert_eq!((t.name.as_str(), t.category), ("t", Category::Types));
    assert_eq!(it.next(), None);
}

#[test]
fn exhausted_iterator_stays_exhausted() {
    let mut it = TlIterator::new("a = A;  // end\n  ".to_string());
    assert!(it.next().unwrap().is_ok());
    assert_eq!(it.next(), None);
    assert_eq!(it.next(), None);
    assert_eq!(it.next(), None);
}

#[test]
fn blank_definitions_are_skipped() {
    let mut it = TlIterator::new("a = A; ; // note; \n ; b = B;".to_string());
    assert_eq!(it.next().unwrap().unwrap().name, "a");
    assert_eq!(it.next().unwrap().unwrap().name, "b");
    assert_eq!(it.next(), None);
    let mut it = TlIterator::new(" ;first = t;".to_string());
    assert_eq!(it.next().unwrap().unwrap().name, "first");
    assert_eq!(it.next(), None);
}

#[test]
fn escaped_quote_keeps_string_open() {
    let mut it = TlIterator::new(r#"a = "x\";y"; b = c;"#.to_string());
    assert_eq!(it.next().unwrap().unwrap().name, "a");
    assert_eq!(it.next().unwrap().unwrap().name, "b");
    assert_eq!(it.next(), None);
}

#[test]
fn find_definition_end_and_escapes() {
    let it = TlIterator::new("ab;c".to_string());
    assert_eq!(it.find_definition_end(), Some((2, false)));
    let it = TlIterator::new("  ;".to_string());
    assert_eq!(it.find_definition_end(), Some((2, true)));
    let it = TlIterator::new("  // x;\n".to_string());
    assert_eq!(it.find_definition_end(), Some((8, true)));
    let it = TlIterator::new(r#"a\"b"#.to_string());
    assert!(it.escaped_char(2));
    assert!(!it.escaped_char(0));
    assert!(!it.escaped_char(1));
    assert!(!it.escaped_char(5));
}

#[test]
fn positions_are_utf8_bytes() {
    let it = TlIterator::new("é;x".to_string());
    assert_eq!(it.find_definition_end(), Some((2, false)));
    let it = TlIterator::new("\"é\\\";\" = T;".to_string());
    assert_eq!(it.find_definition_end(), Some((11, false)));
    assert!(it.escaped_char(4));
    assert!(!it.escaped_char(5));
    assert!(!it.escaped_char(1));
    let mut it = TlIterator::new("ünïcödé = T; ß = S;".to_string());
    assert_eq!(it.next().unwrap().unwrap().name, "ünïcödé");
    assert_eq!(it.find_definition_end(), Some((23, false)));
}

#[test]
fn category_follows_last_separator() {
    let mut it = TlIterator::new(
        "---functions--- f = F; ---other--- x = X; g = G; ; ---types--- t = T; u = U;".to_string(),
    );
    assert_eq!(it.next().unwrap().unwrap().category, Category::Functions);
    assert_eq!(it.next(), Some(Err(ParseError::UnknownSeparator)));
    assert_eq!(it.next().unwrap().unwrap().category, Category::Functions);
    assert_eq!(it.next().unwrap().unwrap().category, Category::Types);
    assert_eq!(it.next().unwrap().unwrap().category, Category::Types);
    assert_eq!(it.next(), None);
}

#[test]
fn items_bounded_by_semicolons() {
    let text = "a = A; b; c = C; d = D";
    let mut it = TlIterator::new(text.to_string());
    let mut count = 0;
    while it.next().is_some() {
        count += 1;
    }
    assert_eq!(count, 4);
    assert!(count <= text.matches(';').count() + 1);
}

#[test]
fn empty_text_yields_nothing() {
    let mut it = TlIterator::new(String::new());
    assert_eq!(it.next(), None);
}
