//! Expressions: identifiers and string literals joined by prefix and binary
//! operators.
//!
//! From loosest to tightest the layers are `Equality` (`==`, `!=`), `Factor`
//! (`+`, `-`), `Term` (`*`, `/`, `%`), `Unary` (`!`, `-` before a primary) and
//! `Primary`. Binary operators associate to the left.
use vstd::prelude::*;
use crate::cursor::{lemma_run_end, skip_ws, CharClass, Cursor};
use crate::error::{
    commit, committed, fail_as, fail_committed, outcome, required, ErrorKind, Failure, ParseError,
    Parsed,
};
use crate::ident::{ident_at, lemma_ident_progress, parse_ident, Ident};
use crate::litstr::{lemma_lit_body_applies, parse_strlit, strlit_at, StrLit, StrLitView};

verus! {

/// A prefix operator.
#[derive(Clone, Copy, Debug, PartialEq, Eq, Structural)]
pub enum UnaryOp {
    Not,
    Neg,
}

/// A multiplicative operator.
#[derive(Clone, Copy, Debug, PartialEq, Eq, Structural)]
pub enum TermOp {
    Mul,
    Div,
    Rem,
}

/// An additive operator.
#[derive(Clone, Copy, Debug, PartialEq, Eq, Structural)]
pub enum FactorOp {
    Add,
    Sub,
}

/// An equality operator.
#[derive(Clone, Copy, Debug, PartialEq, Eq, Structural)]
pub enum EqualityOp {
    Eq,
    Neq,
}

/// An operand: an identifier or a string literal.
#[derive(Debug)]
pub enum Primary {
    Ident(Ident),
    StrLit(StrLit),
}

/// An expression.
#[derive(Debug)]
pub enum Expr {
    Equality(Box<Expr>, EqualityOp, Box<Expr>),
    Term(Box<Expr>, TermOp, Box<Expr>),
    Factor(Box<Expr>, FactorOp, Box<Expr>),
    Unary(UnaryOp, Box<Expr>),
    Primary(Primary),
}

/// An operand as mathematical values.
pub enum PrimaryView {
    Ident(Seq<char>),
    StrLit(StrLitView),
}

/// An expression as mathematical values.
pub enum ExprView {
    Equality(Box<ExprView>, EqualityOp, Box<ExprView>),
    Term(Box<ExprView>, TermOp, Box<ExprView>),
    Factor(Box<ExprView>, FactorOp, Box<ExprView>),
    Unary(UnaryOp, Box<ExprView>),
    Primary(PrimaryView),
}

impl View for Primary {
    type V = PrimaryView;

    open spec fn view(&self) -> PrimaryView {
        match self {
            Primary::Ident(i) => PrimaryView::Ident(i@),
            Primary::StrLit(l) => PrimaryView::StrLit(l@),
        }
    }
}

/// The view of an expression.
pub open spec fn expr_view(e: Expr) -> ExprView
    decreases e,
{
    match e {
        Expr::Equality(l, op, r) => ExprView::Equality(
            Box::new(expr_view(*l)),
            op,
            Box::new(expr_view(*r)),
        ),
        Expr::Term(l, op, r) => ExprView::Term(Box::new(expr_view(*l)), op, Box::new(expr_view(*r))),
        Expr::Factor(l, op, r) => ExprView::Factor(
            Box::new(expr_view(*l)),
            op,
            Box::new(expr_view(*r)),
        ),
        Expr::Unary(op, x) => ExprView::Unary(op, Box::new(expr_view(*x))),
        Expr::Primary(x) => ExprView::Primary(x@),
    }
}

impl View for Expr {
    type V = ExprView;

    open spec fn view(&self) -> ExprView {
        expr_view(*self)
    }
}

/// The position after the character `ch` at `p`, after optional white space.
pub open spec fn token_at(s: Seq<char>, p: int, ch: char) -> Option<int> {
    let q = skip_ws(s, p);
    if 0 <= q < s.len() && s[q] == ch {
        Some(q + 1)
    } else {
        None
    }
}

/// The position after the characters `a` and `b` at `p`, after optional white space.
pub open spec fn token2_at(s: Seq<char>, p: int, a: char, b: char) -> Option<int> {
    let q = skip_ws(s, p);
    if 0 <= q && q + 1 < s.len() && s[q] == a && s[q + 1] == b {
        Some(q + 2)
    } else {
        None
    }
}

/// An operator token at `p` ends past `p`, inside the text.
pub proof fn lemma_token_progress(s: Seq<char>, p: int)
    requires
        0 <= p <= s.len(),
    ensures
        forall|ch: char| #[trigger] token_at(s, p, ch) is Some ==> p < token_at(s, p, ch)->0 <= s.len(),
        forall|a: char, b: char| #[trigger] token2_at(s, p, a, b) is Some ==> p < token2_at(s, p, a, b)->0 <= s.len(),
{
    lemma_run_end(s, p, CharClass::Whitespace);
}

/// A prefix operator at `p`.
pub open spec fn unary_op_at(s: Seq<char>, p: int) -> Option<(UnaryOp, int)> {
    match token_at(s, p, '!') {
        Some(e) => Some((UnaryOp::Not, e)),
        None => match token_at(s, p, '-') {
            Some(e) => Some((UnaryOp::Neg, e)),
            None => None,
        },
    }
}

/// A multiplicative operator at `p`.
pub open spec fn term_op_at(s: Seq<char>, p: int) -> Option<(TermOp, int)> {
    match token_at(s, p, '*') {
        Some(e) => Some((TermOp::Mul, e)),
        None => match token_at(s, p, '/') {
            Some(e) => Some((TermOp::Div, e)),
            None => match token_at(s, p, '%') {
                Some(e) => Some((TermOp::Rem, e)),
                None => None,
            },
        },
    }
}

/// An additive operator at `p`.
pub open spec fn factor_op_at(s: Seq<char>, p: int) -> Option<(FactorOp, int)> {
    match token_at(s, p, '+') {
        Some(e) => Some((FactorOp::Add, e)),
        None => match token_at(s, p, '-') {
            Some(e) => Some((FactorOp::Sub, e)),
            None => None,
        },
    }
}

/// An equality operator at `p`.
pub open spec fn equality_op_at(s: Seq<char>, p: int) -> Option<(EqualityOp, int)> {
    match token2_at(s, p, '=', '=') {
        Some(e) => Some((EqualityOp::Eq, e)),
        None => match token2_at(s, p, '!', '=') {
            Some(e) => Some((EqualityOp::Neq, e)),
            None => None,
        },
    }
}

/// An operand at `p`.
pub open spec fn primary_at(s: Seq<char>, p: int) -> Parsed<PrimaryView> {
    match ident_at(s, p) {
        Parsed::Done(i, e) => Parsed::Done(PrimaryView::Ident(i), e),
        _ => match strlit_at(s, p) {
            Parsed::Done(l, e) => Parsed::Done(PrimaryView::StrLit(l), e),
            other => fail_as(other),
        },
    }
}

/// An operand with an optional prefix operator at `p`.
pub open spec fn unary_at(s: Seq<char>, p: int) -> Parsed<ExprView> {
    match unary_op_at(s, p) {
        Some((op, e)) => match primary_at(s, e) {
            Parsed::Done(x, f) => Parsed::Done(
                ExprView::Unary(op, Box::new(ExprView::Primary(x))),
                f,
            ),
            other => fail_committed(other, ErrorKind::ExpectedExpression, e),
        },
        None => match primary_at(s, p) {
            Parsed::Done(x, f) => Parsed::Done(ExprView::Primary(x), f),
            other => fail_as(other),
        },
    }
}

/// An operand that succeeds ends inside the text, not before `p`.
pub proof fn lemma_primary_progress(s: Seq<char>, p: int)
    requires
        0 <= p <= s.len(),
    ensures
        primary_at(s, p) is Done ==> p <= primary_at(s, p)->Done_1 <= s.len(),
{
    lemma_ident_progress(s, p);
    lemma_run_end(s, p, CharClass::Whitespace);
    let q = skip_ws(s, p);
    if 0 <= q < s.len() && s[q] == '"' {
        lemma_lit_body_applies(s, q + 1);
        crate::litstr::lemma_lit_body_end(s, q + 1);
    }
}

/// A unary expression that succeeds ends inside the text, not before `p`.
pub proof fn lemma_unary_progress(s: Seq<char>, p: int)
    requires
        0 <= p <= s.len(),
    ensures
        unary_at(s, p) is Done ==> p <= unary_at(s, p)->Done_1 <= s.len(),
{
    lemma_token_progress(s, p);
    lemma_primary_progress(s, p);
    if let Some((op, e)) = unary_op_at(s, p) {
        lemma_primary_progress(s, e);
    }
}

/// The rest of a multiplicative chain from `p`, whose operands so far make `left`.
pub open spec fn term_rest(s: Seq<char>, p: int, left: ExprView) -> Parsed<ExprView>
    decreases s.len() - p,
{
    if !(0 <= p <= s.len()) {
        Parsed::Done(left, p)
    } else {
        proof {
            lemma_token_progress(s, p);
        }
        match term_op_at(s, p) {
            Some((op, e)) => {
                proof {
                    lemma_unary_progress(s, e);
                }
                match unary_at(s, e) {
                    Parsed::Done(r, f) => term_rest(
                        s,
                        f,
                        ExprView::Term(Box::new(left), op, Box::new(r)),
                    ),
                    other => fail_committed(other, ErrorKind::ExpectedExpression, e),
                }
            },
            None => Parsed::Done(left, p),
        }
    }
}

/// A multiplicative chain at `p`.
pub open spec fn term_at(s: Seq<char>, p: int) -> Parsed<ExprView> {
    match unary_at(s, p) {
        Parsed::Done(l, e) => term_rest(s, e, l),
        other => fail_as(other),
    }
}

proof fn lemma_term_rest_progress(s: Seq<char>, p: int, left: ExprView)
    requires
        0 <= p <= s.len(),
    ensures
        term_rest(s, p, left) is Done ==> p <= term_rest(s, p, left)->Done_1 <= s.len(),
    decreases s.len() - p,
{
    lemma_token_progress(s, p);
    if let Some((op, e)) = term_op_at(s, p) {
        lemma_unary_progress(s, e);
        if let Parsed::Done(r, f) = unary_at(s, e) {
            lemma_term_rest_progress(s, f, ExprView::Term(Box::new(left), op, Box::new(r)));
        }
    }
}

/// A multiplicative chain that succeeds ends inside the text, not before `p`.
pub proof fn lemma_term_progress(s: Seq<char>, p: int)
    requires
        0 <= p <= s.len(),
    ensures
        term_at(s, p) is Done ==> p <= term_at(s, p)->Done_1 <= s.len(),
{
    lemma_unary_progress(s, p);
    if let Parsed::Done(l, e) = unary_at(s, p) {
        lemma_term_rest_progress(s, e, l);
    }
}

/// The rest of an additive chain from `p`, whose operands so far make `left`.
pub open spec fn factor_rest(s: Seq<char>, p: int, left: ExprView) -> Parsed<ExprView>
    decreases s.len() - p,
{
    if !(0 <= p <= s.len()) {
        Parsed::Done(left, p)
    } else {
        proof {
            lemma_token_progress(s, p);
        }
        match factor_op_at(s, p) {
            Some((op, e)) => {
                proof {
                    lemma_term_progress(s, e);
                }
                match term_at(s, e) {
                    Parsed::Done(r, f) => factor_rest(
                        s,
                        f,
                        ExprView::Factor(Box::new(left), op, Box::new(r)),
                    ),
                    other => fail_committed(other, ErrorKind::ExpectedExpression, e),
                }
            },
            None => Parsed::Done(left, p),
        }
    }
}

/// An additive chain at `p`.
pub open spec fn factor_at(s: Seq<char>, p: int) -> Parsed<ExprView> {
    match term_at(s, p) {
        Parsed::Done(l, e) => factor_rest(s, e, l),
        other => fail_as(other),
    }
}

proof fn lemma_factor_rest_progress(s: Seq<char>, p: int, left: ExprView)
    requires
        0 <= p <= s.len(),
    ensures
        factor_rest(s, p, left) is Done ==> p <= factor_rest(s, p, left)->Done_1 <= s.len(),
    decreases s.len() - p,
{
    lemma_token_progress(s, p);
    if let Some((op, e)) = factor_op_at(s, p) {
        lemma_term_progress(s, e);
        if let Parsed::Done(r, f) = term_at(s, e) {
            lemma_factor_rest_progress(s, f, ExprView::Factor(Box::new(left), op, Box::new(r)));
        }
    }
}

/// An additive chain that succeeds ends inside the text, not before `p`.
pub proof fn lemma_factor_progress(s: Seq<char>, p: int)
    requires
        0 <= p <= s.len(),
    ensures
        factor_at(s, p) is Done ==> p <= factor_at(s, p)->Done_1 <= s.len(),
{
    lemma_term_progress(s, p);
    if let Parsed::Done(l, e) = term_at(s, p) {
        lemma_factor_rest_progress(s, e, l);
    }
}

/// The rest of an equality chain from `p`, whose operands so far make `left`.
pub open spec fn equality_rest(s: Seq<char>, p: int, left: ExprView) -> Parsed<ExprView>
    decreases s.len() - p,
{
    if !(0 <= p <= s.len()) {
        Parsed::Done(left, p)
    } else {
        proof {
            lemma_token_progress(s, p);
        }
        match equality_op_at(s, p) {
            Some((op, e)) => {
                proof {
                    lemma_factor_progress(s, e);
                }
                match factor_at(s, e) {
                    Parsed::Done(r, f) => equality_rest(
                        s,
                        f,
                        ExprView::Equality(Box::new(left), op, Box::new(r)),
                    ),
                    other => fail_committed(other, ErrorKind::ExpectedExpression, e),
                }
            },
            None => Parsed::Done(left, p),
        }
    }
}

/// An expression at `p`.
pub open spec fn expr_at(s: Seq<char>, p: int) -> Parsed<ExprView> {
    match factor_at(s, p) {
        Parsed::Done(l, e) => equality_rest(s, e, l),
        other => fail_as(other),
    }
}

proof fn lemma_equality_rest_progress(s: Seq<char>, p: int, left: ExprView)
    requires
        0 <= p <= s.len(),
    ensures
        equality_rest(s, p, left) is Done ==> p <= equality_rest(s, p, left)->Done_1 <= s.len(),
    decreases s.len() - p,
{
    lemma_token_progress(s, p);
    if let Some((op, e)) = equality_op_at(s, p) {
        lemma_factor_progress(s, e);
        if let Parsed::Done(r, f) = factor_at(s, e) {
            lemma_equality_rest_progress(
                s,
                f,
                ExprView::Equality(Box::new(left), op, Box::new(r)),
            );
        }
    }
}

/// An expression that succeeds ends inside the text, not before `p`.
pub proof fn lemma_expr_progress(s: Seq<char>, p: int)
    requires
        0 <= p <= s.len(),
    ensures
        expr_at(s, p) is Done ==> p <= expr_at(s, p)->Done_1 <= s.len(),
{
    lemma_factor_progress(s, p);
    if let Parsed::Done(l, e) = factor_at(s, p) {
        lemma_equality_rest_progress(s, e, l);
    }
}

/// Consumes the character `ch` after optional white space, if it stands there.
fn take_token(c: &mut Cursor, ch: char) -> (r: bool)
    ensures
        final(c).text() == old(c).text(),
        final(c).pos() <= final(c).text().len(),
        match token_at(old(c).text(), old(c).pos(), ch) {
            Some(e) => r && final(c).pos() == e,
            None => !r && final(c).pos() == old(c).pos(),
        },
{
    let ghost s = c.text();
    let p = c.spanner();
    c.skip_whitespace();
    proof {
        lemma_run_end(s, p as int, CharClass::Whitespace);
    }
    if c.take_char(ch) {
        true
    } else {
        c.rewind(p);
        false
    }
}

/// Consumes the characters `a` and `b` after optional white space, if they stand there.
fn take_token2(c: &mut Cursor, a: char, b: char) -> (r: bool)
    ensures
        final(c).text() == old(c).text(),
        final(c).pos() <= final(c).text().len(),
        match token2_at(old(c).text(), old(c).pos(), a, b) {
            Some(e) => r && final(c).pos() == e,
            None => !r && final(c).pos() == old(c).pos(),
        },
{
    let ghost s = c.text();
    let p = c.spanner();
    c.skip_whitespace();
    proof {
        lemma_run_end(s, p as int, CharClass::Whitespace);
    }
    let found = match (c.peek_nth(0), c.peek_nth(1)) {
        (Some(x), Some(y)) => x == a && y == b,
        _ => false,
    };
    if found {
        c.advance();
        c.advance();
        true
    } else {
        c.rewind(p);
        false
    }
}

fn parse_unary_op(c: &mut Cursor) -> (r: Option<UnaryOp>)
    ensures
        final(c).text() == old(c).text(),
        final(c).pos() <= final(c).text().len(),
        match unary_op_at(old(c).text(), old(c).pos()) {
            Some((op, e)) => r == Some(op) && final(c).pos() == e,
            None => r is None && final(c).pos() == old(c).pos(),
        },
{
    if take_token(c, '!') {
        Some(UnaryOp::Not)
    } else if take_token(c, '-') {
        Some(UnaryOp::Neg)
    } else {
        None
    }
}

fn parse_term_op(c: &mut Cursor) -> (r: Option<TermOp>)
    ensures
        final(c).text() == old(c).text(),
        final(c).pos() <= final(c).text().len(),
        match term_op_at(old(c).text(), old(c).pos()) {
            Some((op, e)) => r == Some(op) && final(c).pos() == e,
            None => r is None && final(c).pos() == old(c).pos(),
        },
{
    if take_token(c, '*') {
        Some(TermOp::Mul)
    } else if take_token(c, '/') {
        Some(TermOp::Div)
    } else if take_token(c, '%') {
        Some(TermOp::Rem)
    } else {
        None
    }
}

fn parse_factor_op(c: &mut Cursor) -> (r: Option<FactorOp>)
    ensures
        final(c).text() == old(c).text(),
        final(c).pos() <= final(c).text().len(),
        match factor_op_at(old(c).text(), old(c).pos()) {
            Some((op, e)) => r == Some(op) && final(c).pos() == e,
            None => r is None && final(c).pos() == old(c).pos(),
        },
{
    if take_token(c, '+') {
        Some(FactorOp::Add)
    } else if take_token(c, '-') {
        Some(FactorOp::Sub)
    } else {
        None
    }
}

fn parse_equality_op(c: &mut Cursor) -> (r: Option<EqualityOp>)
    ensures
        final(c).text() == old(c).text(),
        final(c).pos() <= final(c).text().len(),
        match equality_op_at(old(c).text(), old(c).pos()) {
            Some((op, e)) => r == Some(op) && final(c).pos() == e,
            None => r is None && final(c).pos() == old(c).pos(),
        },
{
    if take_token2(c, '=', '=') {
        Some(EqualityOp::Eq)
    } else if take_token2(c, '!', '=') {
        Some(EqualityOp::Neq)
    } else {
        None
    }
}

fn parse_primary(c: &mut Cursor) -> (r: Result<Primary, Failure>)
    ensures
        final(c).text() == old(c).text(),
        final(c).pos() <= final(c).text().len(),
        outcome(r, old(c).pos(), final(c).pos(), primary_at(old(c).text(), old(c).pos())),
{
    match parse_ident(c) {
        Ok(i) => return Ok(Primary::Ident(i)),
        Err(_) => {},
    }
    match parse_strlit(c) {
        Ok(l) => Ok(Primary::StrLit(l)),
        Err(f) => Err(f),
    }
}

fn parse_unary(c: &mut Cursor) -> (r: Result<Expr, Failure>)
    ensures
        final(c).text() == old(c).text(),
        final(c).pos() <= final(c).text().len(),
        outcome(r, old(c).pos(), final(c).pos(), unary_at(old(c).text(), old(c).pos())),
{
    match parse_unary_op(c) {
        Some(op) => {
            let e = c.position();
            match parse_primary(c) {
                Ok(x) => {
                    let r = Expr::Unary(op, Box::new(Expr::Primary(x)));
                    proof {
                        assert(expr_view(Expr::Primary(x)) == ExprView::Primary(x@));
                    }
                    Ok(r)
                },
                Err(f) => Err(committed(f, ErrorKind::ExpectedExpression, e)),
            }
        },
        None => match parse_primary(c) {
            Ok(x) => Ok(Expr::Primary(x)),
            Err(f) => Err(f),
        },
    }
}

fn parse_term(c: &mut Cursor) -> (r: Result<Expr, Failure>)
    ensures
        final(c).text() == old(c).text(),
        final(c).pos() <= final(c).text().len(),
        outcome(r, old(c).pos(), final(c).pos(), term_at(old(c).text(), old(c).pos())),
{
    let ghost s = c.text();
    let mut left = match parse_unary(c) {
        Ok(l) => l,
        Err(f) => return Err(f),
    };
    loop
        invariant
            c.text() == s,
            s == old(c).text(),
            c.pos() <= s.len(),
            term_at(s, old(c).pos()) == term_rest(s, c.pos(), left@),
        decreases s.len() - c.pos(),
    {
        let here = c.position();
        proof {
            lemma_token_progress(s, here as int);
        }
        match parse_term_op(c) {
            None => return Ok(left),
            Some(op) => {
                let e = c.position();
                proof {
                    lemma_unary_progress(s, e as int);
                }
                match parse_unary(c) {
                    Ok(r) => {
                        left = Expr::Term(Box::new(left), op, Box::new(r));
                    },
                    Err(f) => return Err(committed(f, ErrorKind::ExpectedExpression, e)),
                }
            },
        }
    }
}

fn parse_factor(c: &mut Cursor) -> (r: Result<Expr, Failure>)
    ensures
        final(c).text() == old(c).text(),
        final(c).pos() <= final(c).text().len(),
        outcome(r, old(c).pos(), final(c).pos(), factor_at(old(c).text(), old(c).pos())),
{
    let ghost s = c.text();
    let mut left = match parse_term(c) {
        Ok(l) => l,
        Err(f) => return Err(f),
    };
    loop
        invariant
            c.text() == s,
            s == old(c).text(),
            c.pos() <= s.len(),
            factor_at(s, old(c).pos()) == factor_rest(s, c.pos(), left@),
        decreases s.len() - c.pos(),
    {
        let here = c.position();
        proof {
            lemma_token_progress(s, here as int);
        }
        match parse_factor_op(c) {
            None => return Ok(left),
            Some(op) => {
                let e = c.position();
                proof {
                    lemma_term_progress(s, e as int);
                }
                match parse_term(c) {
                    Ok(r) => {
                        left = Expr::Factor(Box::new(left), op, Box::new(r));
                    },
                    Err(f) => return Err(committed(f, ErrorKind::ExpectedExpression, e)),
                }
            },
        }
    }
}

/// Reads an expression.
pub fn parse_expr(c: &mut Cursor) -> (r: Result<Expr, Failure>)
    ensures
        final(c).text() == old(c).text(),
        final(c).pos() <= final(c).text().len(),
        outcome(r, old(c).pos(), final(c).pos(), expr_at(old(c).text(), old(c).pos())),
{
    let ghost s = c.text();
    let mut left = match parse_factor(c) {
        Ok(l) => l,
        Err(f) => return Err(f),
    };
    loop
        invariant
            c.text() == s,
            s == old(c).text(),
            c.pos() <= s.len(),
            expr_at(s, old(c).pos()) == equality_rest(s, c.pos(), left@),
        decreases s.len() - c.pos(),
    {
        let here = c.position();
        proof {
            lemma_token_progress(s, here as int);
        }
        match parse_equality_op(c) {
            None => return Ok(left),
            Some(op) => {
                let e = c.position();
                proof {
                    lemma_factor_progress(s, e as int);
                }
                match parse_factor(c) {
                    Ok(r) => {
                        left = Expr::Equality(Box::new(left), op, Box::new(r));
                    },
                    Err(f) => return Err(committed(f, ErrorKind::ExpectedExpression, e)),
                }
            },
        }
    }
}

impl Expr {
    /// Reads an expression; where none starts, the error is
    /// [`ErrorKind::ExpectedExpression`].
    pub fn parse(input: &mut Cursor) -> (r: Result<Expr, ParseError>)
        ensures
            final(input).text() == old(input).text(),
            required(
                r,
                old(input).pos(),
                final(input).pos(),
                expr_at(old(input).text(), old(input).pos()),
                ErrorKind::ExpectedExpression,
            ),
    {
        let start = input.position();
        match parse_expr(input) {
            Ok(e) => Ok(e),
            Err(f) => Err(commit(f, ErrorKind::ExpectedExpression, start)),
        }
    }
}

} // verus!
