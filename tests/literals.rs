use hscript::cursor::Cursor;
use hscript::error::ErrorKind;
use hscript::litstr::StrLit;

fn decode(src: &str) -> String {
    let mut c = Cursor::new(src);
    StrLit::parse(&mut c).unwrap().content
}

fn decode_err(src: &str) -> ErrorKind {
    let mut c = Cursor::new(src);
    StrLit::parse(&mut c).unwrap_err().kind
}

#[test]
fn unicode_escapes() {
    assert_eq!(decode(r#""\u{48}\u{65}\u{6c}\u{6c}\u{6f}""#), "Hello");
}

#[test]
fn hex_escape() {
    assert_eq!(decode(r#""\x41""#), "A");
}

#[test]
fn single_character_escapes() {
    assert_eq!(decode(r#""\n\t\\\"""#), "\n\t\\\"");
    assert_eq!(decode(r#""a\rb""#), "a\rb");
}

#[test]
fn long_unicode_escape() {
    assert_eq!(decode(r#""\U{1F600}""#), "\u{1F600}");
    assert_eq!(decode(r#""\U{0000004A}""#), "J");
}

#[test]
fn unterminated_literal() {
    assert_eq!(decode_err(r#""abc"#), ErrorKind::UnterminatedString);
    assert_eq!(decode_err("\"ab\ncd\""), ErrorKind::UnterminatedString);
    assert_eq!(decode_err("\"ab\\"), ErrorKind::UnterminatedString);
}

#[test]
fn bad_escapes() {
    assert_eq!(decode_err(r#""\q""#), ErrorKind::InvalidEscape);
    assert_eq!(decode_err(r#""\u48""#), ErrorKind::InvalidEscape);
    assert_eq!(decode_err(r#""\u{12345}""#), ErrorKind::MissingClosingBrace);
    assert_eq!(decode_err(r#""\u{}""#), ErrorKind::InvalidCodepoint);
    assert_eq!(decode_err(r#""\u{d800}""#), ErrorKind::InvalidCodepoint);
    assert_eq!(decode_err(r#""\U{110000}""#), ErrorKind::InvalidCodepoint);
    assert_eq!(decode_err(r#""\xZZ""#), ErrorKind::InvalidCodepoint);
    assert_eq!(decode_err(r#""\x4""#), ErrorKind::InvalidCodepoint);
}

#[test]
fn span_covers_the_quotes() {
    let mut c = Cursor::new("  \"ab\" rest");
    let lit = StrLit::parse(&mut c).unwrap();
    assert_eq!(lit.content, "ab");
    assert_eq!((lit.span.start, lit.span.end), (2, 6));
    assert_eq!(c.position(), 6);
}

#[test]
fn no_literal_here() {
    let mut c = Cursor::new("abc");
    let e = StrLit::parse(&mut c).unwrap_err();
    assert_eq!(e.kind, ErrorKind::ExpectedStringLiteral);
    assert_eq!(c.position(), 0);
}
