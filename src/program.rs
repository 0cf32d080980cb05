//! A program: declarations, each a directive (`#name argument`) or a tag.
use vstd::prelude::*;
use crate::cursor::{lemma_run_end, skip_ws, CharClass, Cursor};
use crate::error::{
    commit, committed, fail_as, fail_committed, fatal, lemma_prepend_empty, lemma_prepend_push,
    prepend, required, ErrorKind, Failure, ParseError, Parsed,
};
use crate::expr::{expr_at, lemma_expr_progress, parse_expr, Expr, ExprView};
use crate::html::{Tag, TagView};
use crate::ident::{ident_at, lemma_ident_progress, parse_ident, Ident};
use crate::markup::{parse_tag, tag_at};

verus! {

/// A directive: `#`, its name, and its argument, an expression.
#[derive(Debug)]
pub struct Include {
    pub name: Ident,
    pub path: Expr,
}

/// A declaration: a directive or a tag.
#[derive(Debug)]
pub enum Decl {
    Include(Include),
    Tag(Tag),
}

/// The declarations of a source text, in order.
#[derive(Debug)]
pub struct Program {
    pub decls: Vec<Decl>,
}

/// A directive as mathematical values.
pub struct IncludeView {
    pub name: Seq<char>,
    pub path: ExprView,
}

/// A declaration as mathematical values.
pub enum DeclView {
    Include(IncludeView),
    Tag(TagView),
}

impl View for Decl {
    type V = DeclView;

    open spec fn view(&self) -> DeclView {
        match self {
            Decl::Include(i) => DeclView::Include(IncludeView { name: i.name@, path: i.path@ }),
            Decl::Tag(t) => DeclView::Tag(t@),
        }
    }
}

/// The views of the declarations `d`.
pub open spec fn decls_view(d: Seq<Decl>) -> Seq<DeclView> {
    d.map_values(|x: Decl| x@)
}

impl View for Program {
    type V = Seq<DeclView>;

    open spec fn view(&self) -> Seq<DeclView> {
        decls_view(self.decls@)
    }
}

/// A declaration at `p`, after optional white space: a directive where the
/// next character is `#`, a tag otherwise.
pub open spec fn decl_at(s: Seq<char>, p: int) -> Parsed<DeclView> {
    let q = skip_ws(s, p);
    if 0 <= q < s.len() && s[q] == '#' {
        match ident_at(s, q + 1) {
            Parsed::Done(name, e) => match expr_at(s, e) {
                Parsed::Done(path, f) => Parsed::Done(
                    DeclView::Include(IncludeView { name, path }),
                    f,
                ),
                other => fail_committed(other, ErrorKind::ExpectedExpression, e),
            },
            _ => Parsed::Fatal(ErrorKind::ExpectedIdentifier, q + 1),
        }
    } else {
        match tag_at(s, q, 0) {
            Parsed::Done(t, e) => Parsed::Done(DeclView::Tag(t), e),
            other => fail_committed(other, ErrorKind::ExpectedDirectiveOrTag, q),
        }
    }
}

/// The declarations from `p` to the end of the text.
pub open spec fn program_at(s: Seq<char>, p: int) -> Parsed<Seq<DeclView>>
    decreases s.len() - p,
{
    if !(0 <= p <= s.len()) {
        Parsed::Done(Seq::empty(), p)
    } else {
        let q = skip_ws(s, p);
        proof {
            lemma_run_end(s, p, CharClass::Whitespace);
        }
        if q >= s.len() {
            Parsed::Done(Seq::empty(), q)
        } else {
            match decl_at(s, q) {
                Parsed::Done(d, e) => {
                    if q < e <= s.len() {
                        prepend(seq![d], program_at(s, e))
                    } else {
                        Parsed::Fatal(ErrorKind::ExpectedDirectiveOrTag, q)
                    }
                },
                other => fail_as(other),
            }
        }
    }
}

/// Reads a declaration, after optional white space.
fn parse_decl(c: &mut Cursor) -> (r: Result<Decl, Failure>)
    ensures
        final(c).text() == old(c).text(),
        final(c).pos() <= final(c).text().len(),
        skip_ws(old(c).text(), old(c).pos()) < old(c).text().len() ==> match decl_at(
            old(c).text(),
            old(c).pos(),
        ) {
            Parsed::Done(d, e) => r is Ok && r->Ok_0@ == d && final(c).pos() == e
                && skip_ws(old(c).text(), old(c).pos()) < e,
            other => r == Err::<Decl, Failure>(crate::error::failure_of(other)),
        },
{
    let ghost s = c.text();
    let p = c.spanner();
    c.skip_whitespace();
    let q = c.position();
    proof {
        lemma_run_end(s, p as int, CharClass::Whitespace);
    }
    if c.take_char('#') {
        let after = c.position();
        let name = match parse_ident(c) {
            Ok(n) => n,
            Err(_) => return Err(fatal(ErrorKind::ExpectedIdentifier, after)),
        };
        let e = c.position();
        proof {
            lemma_ident_progress(s, after as int);
            lemma_expr_progress(s, e as int);
        }
        match parse_expr(c) {
            Ok(path) => Ok(Decl::Include(Include { name, path })),
            Err(f) => Err(committed(f, ErrorKind::ExpectedExpression, e)),
        }
    } else {
        match parse_tag(c, 0) {
            Ok(t) => Ok(Decl::Tag(t)),
            Err(f) => Err(committed(f, ErrorKind::ExpectedDirectiveOrTag, q)),
        }
    }
}

impl Program {
    /// Reads declarations up to the end of the input.
    pub fn parse(input: &mut Cursor) -> (r: Result<Program, ParseError>)
        ensures
            final(input).text() == old(input).text(),
            required(
                r,
                old(input).pos(),
                final(input).pos(),
                program_at(old(input).text(), old(input).pos()),
                ErrorKind::ExpectedDirectiveOrTag,
            ),
    {
        let ghost s = input.text();
        let start = input.position();
        let ghost p0 = start as int;
        let mut decls: Vec<Decl> = Vec::new();
        proof {
            assert(decls_view(decls@) =~= Seq::empty());
            lemma_prepend_empty(program_at(s, p0));
        }
        loop
            invariant
                input.text() == s,
                s == old(input).text(),
                p0 == old(input).pos(),
                input.pos() <= s.len(),
                program_at(s, p0) == prepend(decls_view(decls@), program_at(s, input.pos())),
            decreases s.len() - input.pos(),
        {
            let ghost p = input.pos();
            let mark = input.spanner();
            input.skip_whitespace();
            proof {
                lemma_run_end(s, p, CharClass::Whitespace);
            }
            if !input.has_next() {
                proof {
                    assert(decls_view(decls@) + Seq::<DeclView>::empty() =~= decls_view(decls@));
                }
                return Ok(Program { decls });
            }
            input.rewind(mark);
            match parse_decl(input) {
                Ok(d) => {
                    proof {
                        assert(decls_view(decls@.push(d)) =~= decls_view(decls@).push(d@));
                        lemma_prepend_push(decls_view(decls@), d@, program_at(s, input.pos()));
                    }
                    decls.push(d);
                },
                Err(f) => return Err(commit(f, ErrorKind::ExpectedDirectiveOrTag, mark)),
            }
        }
    }

    /// Reads the declarations of the source text `source`.
    pub fn parse_source(source: &str) -> (r: Result<Program, ParseError>)
        ensures
            required(r, 0, source@.len() as int, program_at(source@, 0), ErrorKind::ExpectedDirectiveOrTag),
    {
        let mut c = Cursor::new(source);
        let r = Program::parse(&mut c);
        proof {
            lemma_program_ends(source@, 0);
        }
        r
    }
}

/// Declarations that succeed run to the end of the text.
pub proof fn lemma_program_ends(s: Seq<char>, p: int)
    requires
        0 <= p <= s.len(),
    ensures
        program_at(s, p) is Done ==> program_at(s, p)->Done_1 == s.len(),
    decreases s.len() - p,
{
    lemma_run_end(s, p, CharClass::Whitespace);
    let q = skip_ws(s, p);
    if q < s.len() {
        if let Parsed::Done(d, e) = decl_at(s, q) {
            if q < e <= s.len() {
                lemma_program_ends(s, e);
            }
        }
    }
}

} // verus!
