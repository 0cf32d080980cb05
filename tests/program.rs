use hscript::cursor::Cursor;
use hscript::error::ErrorKind;
use hscript::expr::{EqualityOp, Expr, FactorOp, Primary, TermOp, UnaryOp};
use hscript::ident::Ident;
use hscript::program::{Decl, Program};
use hscript::response::Response;

fn ident(e: &Expr) -> &str {
    match e {
        Expr::Primary(Primary::Ident(i)) => i.value.as_str(),
        other => panic!("expected identifier, found {:?}", other),
    }
}

#[test]
fn expression_precedence() {
    let mut c = Cursor::new("a == b * c - d");
    let e = Expr::parse(&mut c).unwrap();
    match e {
        Expr::Equality(l, EqualityOp::Eq, r) => {
            assert_eq!(ident(&l), "a");
            match *r {
                Expr::Factor(l2, FactorOp::Sub, d) => {
                    assert_eq!(ident(&d), "d");
                    match *l2 {
                        Expr::Term(b, TermOp::Mul, c2) => {
                            assert_eq!(ident(&b), "b");
                            assert_eq!(ident(&c2), "c");
                        }
                        other => panic!("unexpected {:?}", other),
                    }
                }
                other => panic!("unexpected {:?}", other),
            }
        }
        other => panic!("unexpected {:?}", other),
    }
}

#[test]
fn operators_associate_left() {
    let e = Expr::parse(&mut Cursor::new("a - b - c")).unwrap();
    match e {
        Expr::Factor(l, FactorOp::Sub, r) => {
            assert_eq!(ident(&r), "c");
            assert!(matches!(*l, Expr::Factor(_, FactorOp::Sub, _)));
        }
        other => panic!("unexpected {:?}", other),
    }
}

#[test]
fn unary_and_literal_operands() {
    let e = Expr::parse(&mut Cursor::new("!ready != \"no\" % -x")).unwrap();
    match e {
        Expr::Equality(l, EqualityOp::Neq, r) => {
            assert!(matches!(*l, Expr::Unary(UnaryOp::Not, _)));
            match *r {
                Expr::Term(lit, TermOp::Rem, neg) => {
                    assert!(matches!(*lit, Expr::Primary(Primary::StrLit(ref s)) if s.content == "no"));
                    assert!(matches!(*neg, Expr::Unary(UnaryOp::Neg, _)));
                }
                other => panic!("unexpected {:?}", other),
            }
        }
        other => panic!("unexpected {:?}", other),
    }
}

#[test]
fn expression_errors() {
    let e = Expr::parse(&mut Cursor::new("a ==")).unwrap_err();
    assert_eq!(e.kind, ErrorKind::ExpectedExpression);
    let e = Expr::parse(&mut Cursor::new("42")).unwrap_err();
    assert_eq!(e.kind, ErrorKind::ExpectedExpression);
    let e = Expr::parse(&mut Cursor::new("- ")).unwrap_err();
    assert_eq!(e.kind, ErrorKind::ExpectedExpression);
}

#[test]
fn directive_with_string_argument() {
    let src = ["#inc", "lude \"nav.html\""].concat();
    let p = Program::parse_source(&src).unwrap();
    assert_eq!(p.decls.len(), 1);
    match &p.decls[0] {
        Decl::Include(d) => {
            assert_eq!(d.name.value, ["inc", "lude"].concat());
            match &d.path {
                Expr::Primary(Primary::StrLit(lit)) => assert_eq!(lit.content, "nav.html"),
                other => panic!("unexpected {:?}", other),
            }
        }
        Decl::Tag(t) => panic!("unexpected tag {}", t.name),
    }
}

#[test]
fn directive_names() {
    let p = Program::parse_source("#a1_b-c \"x\"\n#\u{e9}t\u{e9} \"y\"").unwrap();
    assert!(matches!(p.decls[0], Decl::Include(ref d) if d.name.value == "a1_b-c"));
    assert!(matches!(p.decls[1], Decl::Include(ref d) if d.name.value == "\u{e9}t\u{e9}"));
}

#[test]
fn program_errors() {
    assert_eq!(Program::parse_source("hello").unwrap_err().kind, ErrorKind::ExpectedDirectiveOrTag);
    assert_eq!(Program::parse_source("# \"x\"").unwrap_err().kind, ErrorKind::ExpectedIdentifier);
    assert_eq!(Program::parse_source("#if").unwrap_err().kind, ErrorKind::ExpectedExpression);
    assert_eq!(Program::parse_source("<a></a> </b>").unwrap_err().kind, ErrorKind::ExpectedTagName);
}

#[test]
fn empty_and_blank_programs() {
    assert_eq!(Program::parse_source("").unwrap().decls.len(), 0);
    assert_eq!(Program::parse_source(" \n\t\u{3000}").unwrap().decls.len(), 0);
}

#[test]
fn identifiers() {
    assert_eq!(Ident::new("mode").value, "mode");
    let mut c = Cursor::new("  x-y_1 rest");
    assert_eq!(Ident::parse(&mut c).unwrap().value, "x-y_1");
    let e = Ident::parse(&mut Cursor::new("1abc")).unwrap_err();
    assert_eq!(e.kind, ErrorKind::ExpectedIdentifier);
}

#[test]
fn responses() {
    let r = Response::empty();
    assert_eq!(r.code, 200);
    assert!(r.body.is_none());
    assert_eq!(Response::empty().created().code, 201);
    assert_eq!(Response::empty().not_found().code, 404);
    assert_eq!(Response::empty().internal_server_error().code, 500);
    let h = Response::html("<p>\u{e9}</p>".to_string()).not_found();
    assert_eq!(h.code, 404);
    let (kind, bytes) = h.body.unwrap();
    assert_eq!(kind, "text/html");
    assert_eq!(bytes, "<p>\u{e9}</p>".as_bytes().to_vec());
    let t = Response::text("hi".to_string());
    assert_eq!(t.body.unwrap(), ("text/plain".to_string(), b"hi".to_vec()));
    let n = Response::none();
    assert_eq!(n.code, 0);
    assert_eq!(n.body.unwrap(), ("text/html".to_string(), Vec::new()));
}
