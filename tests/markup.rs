use hscript::cursor::Cursor;
use hscript::error::ErrorKind;
use hscript::html::{is_tag_name, Child, Closing, Tag};
use hscript::markup::{HtmlIdent, HtmlStrLit};

fn parse(src: &str) -> Tag {
    let mut c = Cursor::new(src);
    Tag::parse(&mut c).unwrap()
}

fn parse_err(src: &str) -> ErrorKind {
    let mut c = Cursor::new(src);
    Tag::parse(&mut c).unwrap_err().kind
}

fn text_of(c: &Child) -> &str {
    match c {
        Child::Text(t) => t.as_str(),
        Child::Tag(t) => panic!("expected text, found tag {}", t.name),
    }
}

fn tag_of(c: &Child) -> &Tag {
    match c {
        Child::Tag(t) => t,
        Child::Text(t) => panic!("expected tag, found text {:?}", t),
    }
}

#[test]
fn tag_with_attribute_and_text() {
    let mut c = Cursor::new(r#"<div id="x">hi</div>"#);
    let t = Tag::parse(&mut c).unwrap();
    assert!(!c.has_next());
    assert_eq!(t.name, "div");
    assert_eq!(t.attributes.len(), 1);
    assert_eq!(t.attributes[0].name, "id");
    assert_eq!(t.attributes[0].value.as_deref(), Some("x"));
    assert_eq!(t.children.len(), 1);
    assert_eq!(text_of(&t.children[0]), "hi");
    assert_eq!(t.closing, Closing::Explicit);
}

#[test]
fn inline_close() {
    let t = parse("<img/>");
    assert_eq!(t.name, "img");
    assert!(t.attributes.is_empty());
    assert!(t.children.is_empty());
    assert_eq!(t.closing, Closing::Inline);
}

#[test]
fn inline_close_with_bare_attribute() {
    let t = parse("<input disabled/>");
    assert_eq!(t.attributes.len(), 1);
    assert_eq!(t.attributes[0].name, "disabled");
    assert_eq!(t.attributes[0].value, None);
    assert_eq!(t.closing, Closing::Inline);
}

#[test]
fn implicit_close_leaves_closing_tag_to_parent() {
    let ul = parse("<ul><li>one</ul>");
    assert_eq!(ul.closing, Closing::Explicit);
    assert_eq!(ul.children.len(), 1);
    let li = tag_of(&ul.children[0]);
    assert_eq!(li.name, "li");
    assert_eq!(li.closing, Closing::Implicit);
    assert_eq!(text_of(&li.children[0]), "one");
}

#[test]
fn implicit_close_nested_items() {
    let mut c = Cursor::new("<li>one<li>two</ul>");
    let first = Tag::parse(&mut c).unwrap();
    assert_eq!(first.closing, Closing::Implicit);
    assert_eq!(first.children.len(), 2);
    assert_eq!(text_of(&first.children[0]), "one");
    let second = tag_of(&first.children[1]);
    assert_eq!(second.closing, Closing::Implicit);
    assert_eq!(text_of(&second.children[0]), "two");
    // the closing tag is left unconsumed
    assert_eq!(c.position(), "<li>one<li>two".len());
}

#[test]
fn closing_tag_name_ignores_ascii_case() {
    let t = parse("<DIV>x</div>");
    assert_eq!(t.closing, Closing::Explicit);
}

#[test]
fn missing_attribute_value_is_fatal() {
    assert_eq!(parse_err("<div class=>"), ErrorKind::ExpectedStringLiteral);
}

#[test]
fn malformed_tags() {
    assert_eq!(parse_err("<div"), ErrorKind::ExpectedRightArrow);
    assert_eq!(parse_err("<div>"), ErrorKind::ExpectedClosingTag);
    assert_eq!(parse_err("<div>text"), ErrorKind::ExpectedClosingTag);
    assert_eq!(parse_err("<>"), ErrorKind::ExpectedTagName);
    assert_eq!(parse_err("<div class=\"x>"), ErrorKind::ExpectedQuote);
    assert_eq!(parse_err("<div =>"), ErrorKind::ExpectedAttribute);
    assert_eq!(parse_err("<div></ >"), ErrorKind::ExpectedTagName);
    assert_eq!(parse_err("<div></div x>"), ErrorKind::ExpectedRightArrow);
    assert_eq!(parse_err("<div><<"), ErrorKind::ExpectedTagName);
    assert_eq!(parse_err("text"), ErrorKind::ExpectedTag);
}

#[test]
fn error_position_and_message() {
    let mut c = Cursor::new("<div class=>");
    let e = Tag::parse(&mut c).unwrap_err();
    assert_eq!(e.span.start, 11);
    assert_eq!(e.message(), "expected string literal");
}

#[test]
fn nesting_limit() {
    let depth = hscript::markup::MAX_DEPTH;
    let ok = format!("{}{}", "<a>".repeat(depth), "</a>".repeat(depth));
    assert!(Tag::parse(&mut Cursor::new(&ok)).is_ok());
    let deep = format!("{}{}", "<a>".repeat(depth + 1), "</a>".repeat(depth + 1));
    assert_eq!(parse_err(&deep), ErrorKind::NestingTooDeep);
}

#[test]
fn whitespace_inside_tags() {
    let t = parse("<p  a = \"1\"\u{3000}b >x</ p >");
    assert_eq!(t.attributes.len(), 2);
    assert_eq!(t.attributes[0].value.as_deref(), Some("1"));
    assert_eq!(t.attributes[1].name, "b");
    assert_eq!(t.closing, Closing::Explicit);
}

#[test]
fn duplicate_attributes_are_kept_in_order() {
    let t = parse(r#"<a x="1" x="2" y></a>"#);
    let names: Vec<&str> = t.attributes.iter().map(|a| a.name.as_str()).collect();
    assert_eq!(names, vec!["x", "x", "y"]);
    assert_eq!(t.attributes[1].value.as_deref(), Some("2"));
    assert_eq!(t.render(), r#"<a x="1" x="2" y></a>"#);
}

#[test]
fn render_builder_tree() {
    let t = Tag::new("div")
        .attr("id", "x")
        .child(Child::text("hi"))
        .child(Child::Tag(Tag::new("br")));
    assert_eq!(t.render(), r#"<div id="x">hi<br></br></div>"#);
}

#[test]
fn render_by_closing_kind() {
    assert_eq!(parse("<img/>").render(), "<img/>");
    let ul = parse("<ul><li>one</ul>");
    assert_eq!(ul.render(), "<ul><li>one</ul>");
}

#[test]
fn builder_round_trip() {
    let t = Tag::new("ul")
        .attr("class", "list")
        .child(Child::Tag(Tag::new("li").child(Child::text("Rust"))))
        .child(Child::text(" and "))
        .child(Child::Tag(Tag::new("li").attr("x", "").child(Child::text("Java"))));
    let text = t.render();
    let mut c = Cursor::new(&text);
    let back = Tag::parse(&mut c).unwrap();
    assert!(!c.has_next());
    assert_eq!(back.name, "ul");
    assert_eq!(back.attributes.len(), 1);
    assert_eq!(back.attributes[0].value.as_deref(), Some("list"));
    assert_eq!(back.children.len(), 3);
    assert_eq!(tag_of(&back.children[0]).name, "li");
    assert_eq!(text_of(&tag_of(&back.children[0]).children[0]), "Rust");
    assert_eq!(text_of(&back.children[1]), " and ");
    assert_eq!(tag_of(&back.children[2]).attributes[0].value.as_deref(), Some(""));
    assert_eq!(back.closing, Closing::Explicit);
}

#[test]
fn render_parse_render_is_stable() {
    let t = Tag::new("p").child(Child::text("a")).child(Child::text("b"));
    let once = t.render();
    let again = parse(&once).render();
    assert_eq!(once, again);
    assert_eq!(once, "<p>ab</p>");
}

#[test]
fn tag_names() {
    assert!(is_tag_name("h1"));
    assert!(!is_tag_name(""));
    assert!(!is_tag_name("data-x"));
    assert!(!is_tag_name("é"));
}

#[test]
fn name_and_value_tokens() {
    let mut c = Cursor::new("  div9 = \"a b\"");
    let name = HtmlIdent::parse(&mut c).unwrap();
    assert_eq!(name.name, "div9");
    assert_eq!((name.span.start, name.span.end), (2, 6));
    c.skip_whitespace();
    assert!(c.take_char('='));
    let value = HtmlStrLit::parse(&mut c).unwrap();
    assert_eq!(value.content, "a b");
    assert_eq!((value.span.start, value.span.end), (9, 14));
    assert!(!c.has_next());
    let e = HtmlIdent::parse(&mut Cursor::new(" -x")).unwrap_err();
    assert_eq!(e.kind, ErrorKind::ExpectedTagName);
    let e = HtmlStrLit::parse(&mut Cursor::new("x")).unwrap_err();
    assert_eq!(e.kind, ErrorKind::ExpectedStringLiteral);
    let e = HtmlStrLit::parse(&mut Cursor::new("\"open")).unwrap_err();
    assert_eq!(e.kind, ErrorKind::ExpectedQuote);
}

#[test]
fn child_conversions_and_rendering() {
    let c: Child = Tag::new("b").into();
    assert_eq!(c.render(), "<b></b>");
    assert_eq!(Child::text("x<y").render(), "x<y");
}
