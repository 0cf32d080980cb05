//! Identifiers of directives and expressions: a letter, then letters, digits,
//! `_` and `-`.
use vstd::prelude::*;
use crate::chars::{alphabetic, is_alphabetic, string_of};
use crate::cursor::{lemma_run_end, run_end, skip_ws, CharClass, Cursor};
use crate::error::{commit, outcome, required, ErrorKind, Failure, ParseError, Parsed};

verus! {

/// An identifier.
#[derive(Debug)]
pub struct Ident {
    pub value: String,
}

impl View for Ident {
    type V = Seq<char>;

    open spec fn view(&self) -> Seq<char> {
        self.value@
    }
}

/// An identifier at `p`, after optional white space.
pub open spec fn ident_at(s: Seq<char>, p: int) -> Parsed<Seq<char>> {
    let q = skip_ws(s, p);
    if 0 <= q < s.len() && alphabetic(s[q]) {
        let e = run_end(s, q, CharClass::NameChar);
        Parsed::Done(s.subrange(q, e), e)
    } else {
        Parsed::Mismatch
    }
}

/// An identifier that succeeds ends inside the text, past any white space
/// before it.
pub proof fn lemma_ident_progress(s: Seq<char>, p: int)
    requires
        0 <= p <= s.len(),
    ensures
        ident_at(s, p) is Done ==> p <= skip_ws(s, p) <= ident_at(s, p)->Done_1 <= s.len(),
{
    lemma_run_end(s, p, CharClass::Whitespace);
    let q = skip_ws(s, p);
    if 0 <= q < s.len() {
        lemma_run_end(s, q, CharClass::NameChar);
    }
}

/// Reads an identifier, after optional white space.
pub fn parse_ident(c: &mut Cursor) -> (r: Result<Ident, Failure>)
    ensures
        final(c).text() == old(c).text(),
        final(c).pos() <= final(c).text().len(),
        outcome(r, old(c).pos(), final(c).pos(), ident_at(old(c).text(), old(c).pos())),
{
    let ghost s = c.text();
    let p = c.spanner();
    c.skip_whitespace();
    proof {
        lemma_run_end(s, p as int, CharClass::Whitespace);
    }
    if !(c.has_next() && is_alphabetic(c.peek().unwrap())) {
        c.rewind(p);
        return Err(Failure::Mismatch);
    }
    proof {
        lemma_run_end(s, c.pos(), CharClass::NameChar);
    }
    let span = c.take_while(CharClass::NameChar);
    let chars = c.source_for_span(span);
    Ok(Ident { value: string_of(&chars) })
}

impl Ident {
    /// The identifier `value`.
    pub fn new(value: &str) -> (r: Ident)
        ensures
            r@ == value@,
    {
        Ident { value: value.to_owned() }
    }

    /// Reads an identifier, after optional white space; where none starts, the
    /// error is [`ErrorKind::ExpectedIdentifier`].
    pub fn parse(input: &mut Cursor) -> (r: Result<Ident, ParseError>)
        ensures
            final(input).text() == old(input).text(),
            required(
                r,
                old(input).pos(),
                final(input).pos(),
                ident_at(old(input).text(), old(input).pos()),
                ErrorKind::ExpectedIdentifier,
            ),
    {
        let start = input.position();
        match parse_ident(input) {
            Ok(i) => Ok(i),
            Err(f) => Err(commit(f, ErrorKind::ExpectedIdentifier, start)),
        }
    }
}

} // verus!
