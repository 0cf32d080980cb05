use hscript::cursor::Cursor;
use hscript::expr::{Expr, FactorOp, Primary, TermOp};
use hscript::html::{Child, Closing, Tag};
use hscript::program::{Decl, Program};

#[test]
fn test_simple() {
    let raw = "a + b * c";
    let mut stream = Cursor::new(raw);
    let expr = Expr::parse(&mut stream).unwrap();
    println!("{:#?}", expr);
    match expr {
        Expr::Factor(l, FactorOp::Add, r) => {
            assert!(matches!(*l, Expr::Primary(Primary::Ident(ref i)) if i.value == "a"));
            match *r {
                Expr::Term(b, TermOp::Mul, c) => {
                    assert!(matches!(*b, Expr::Primary(Primary::Ident(ref i)) if i.value == "b"));
                    assert!(matches!(*c, Expr::Primary(Primary::Ident(ref i)) if i.value == "c"));
                }
                other => panic!("unexpected {:?}", other),
            }
        }
        other => panic!("unexpected {:?}", other),
    }
    assert!(!stream.has_next());
}

#[test]
fn simple() {
    let input = r#"
#include "nav.html"

#if mode == "dev"
    <div>DEV MODE</div>
#end ""

<div id="root">
    <h1>Hello, world!</h1>
    <h2>Dillon Shaffer</h2>
</div>
    "#;

    let mut stream = Cursor::new(input);
    let program = Program::parse(&mut stream)
        .map_err(|e| {
            println!("{}", e.message());
            e
        })
        .unwrap();
    println!("{:#?}", program);
    assert_eq!(program.decls.len(), 5);
    assert!(matches!(program.decls[0], Decl::Include(ref i) if i.name.value == "include"));
    assert!(matches!(program.decls[1], Decl::Include(ref i) if i.name.value == "if"));
    assert!(matches!(program.decls[2], Decl::Tag(ref t) if t.name == "div"));
    assert!(matches!(program.decls[3], Decl::Include(ref i) if i.name.value == "end"));
    assert!(matches!(program.decls[4], Decl::Tag(ref t) if t.name == "div"));
}

#[test]
fn test() {
    let input = r#"<div class="test" id="test">Hello, world!</div>"#;
    let mut stream = Cursor::new(input);
    let tag = Tag::parse(&mut stream).unwrap();
    println!("{}", tag.render());
    assert!(!stream.has_next());
    assert_eq!(tag.name, "div");
    assert_eq!(tag.attributes.len(), 2);
    assert_eq!(tag.children.len(), 1);
    assert_eq!(tag.closing, Closing::Explicit);
    assert!(matches!(tag.children[0], Child::Text(ref t) if t == "Hello, world!"));

    println!("{:?}", tag);
}
