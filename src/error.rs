//! Parse failures: the fatal errors that reach a caller, and the mismatch
//! that drives backtracking between alternatives.
use vstd::prelude::*;
use crate::cursor::Span;

verus! {

/// What went wrong in a fatal parse error.
#[derive(Clone, Copy, Debug, PartialEq, Eq, Structural)]
pub enum ErrorKind {
    UnterminatedString,
    InvalidEscape,
    MissingClosingBrace,
    InvalidCodepoint,
    ExpectedTag,
    ExpectedTagName,
    ExpectedAttribute,
    ExpectedStringLiteral,
    ExpectedRightArrow,
    ExpectedQuote,
    ExpectedClosingTag,
    ExpectedIdentifier,
    ExpectedExpression,
    ExpectedDirectiveOrTag,
    NestingTooDeep,
}

/// The message for people that goes with an error of kind `k`.
pub open spec fn message_of(k: ErrorKind) -> Seq<char> {
    match k {
        ErrorKind::UnterminatedString => "unterminated string literal"@,
        ErrorKind::InvalidEscape => "invalid escape sequence"@,
        ErrorKind::MissingClosingBrace => "invalid escape sequence -- missing closing `}`"@,
        ErrorKind::InvalidCodepoint => "invalid escape sequence -- invalid codepoint"@,
        ErrorKind::ExpectedTag => "expected tag"@,
        ErrorKind::ExpectedTagName => "expected tag-name"@,
        ErrorKind::ExpectedAttribute => "expected attribute"@,
        ErrorKind::ExpectedStringLiteral => "expected string literal"@,
        ErrorKind::ExpectedRightArrow => "expected '>'"@,
        ErrorKind::ExpectedQuote => "expected '\"'"@,
        ErrorKind::ExpectedClosingTag => "expected closing tag"@,
        ErrorKind::ExpectedIdentifier => "expected identifier"@,
        ErrorKind::ExpectedExpression => "expected expression"@,
        ErrorKind::ExpectedDirectiveOrTag => "expected directive or tag"@,
        ErrorKind::NestingTooDeep => "tags nested too deeply"@,
    }
}

impl ErrorKind {
    /// A message for people.
    pub fn message(&self) -> (r: &'static str)
        ensures
            r@ == message_of(*self),
    {
        match self {
            ErrorKind::UnterminatedString => "unterminated string literal",
            ErrorKind::InvalidEscape => "invalid escape sequence",
            ErrorKind::MissingClosingBrace => "invalid escape sequence -- missing closing `}`",
            ErrorKind::InvalidCodepoint => "invalid escape sequence -- invalid codepoint",
            ErrorKind::ExpectedTag => "expected tag",
            ErrorKind::ExpectedTagName => "expected tag-name",
            ErrorKind::ExpectedAttribute => "expected attribute",
            ErrorKind::ExpectedStringLiteral => "expected string literal",
            ErrorKind::ExpectedRightArrow => "expected '>'",
            ErrorKind::ExpectedQuote => "expected '\"'",
            ErrorKind::ExpectedClosingTag => "expected closing tag",
            ErrorKind::ExpectedIdentifier => "expected identifier",
            ErrorKind::ExpectedExpression => "expected expression",
            ErrorKind::ExpectedDirectiveOrTag => "expected directive or tag",
            ErrorKind::NestingTooDeep => "tags nested too deeply",
        }
    }
}

/// A fatal parse error: its kind and where in the source it was found.
#[derive(Clone, Copy, Debug, PartialEq, Eq, Structural)]
pub struct ParseError {
    pub kind: ErrorKind,
    pub span: Span,
}

impl ParseError {
    /// The fatal error of kind `kind` at position `at`.
    pub open spec fn at(kind: ErrorKind, at: int) -> ParseError {
        ParseError { kind, span: Span::point(at) }
    }

    /// A message for people.
    pub fn message(&self) -> (r: &'static str)
        ensures
            r@ == message_of(self.kind),
    {
        self.kind.message()
    }
}

/// Why a production did not yield a value.
#[derive(Clone, Copy, Debug, PartialEq, Eq, Structural)]
pub enum Failure {
    /// The production does not start here; another alternative may.
    Mismatch,
    /// The production started here and then failed; the whole parse fails.
    Fatal(ParseError),
}

/// The outcome of a production on a text, as the grammar defines it: a value
/// and the position after it, a mismatch, or a fatal error and its position.
pub enum Parsed<T> {
    Done(T, int),
    Mismatch,
    Fatal(ErrorKind, int),
}

/// The failure of `p` as an outcome of another type (a value is never passed).
pub open spec fn fail_as<A, B>(p: Parsed<A>) -> Parsed<B> {
    match p {
        Parsed::Fatal(k, at) => Parsed::Fatal(k, at),
        _ => Parsed::Mismatch,
    }
}

/// The failure of `p` where the production had already committed: a mismatch
/// there becomes the fatal error `kind` at `at`.
pub open spec fn fail_committed<A, B>(p: Parsed<A>, kind: ErrorKind, at: int) -> Parsed<B> {
    match p {
        Parsed::Fatal(k, e) => Parsed::Fatal(k, e),
        _ => Parsed::Fatal(kind, at),
    }
}

/// A failure after the production committed: a mismatch becomes the fatal
/// error `kind` at `at`.
pub fn committed(f: Failure, kind: ErrorKind, at: usize) -> (r: Failure)
    ensures
        f is Mismatch ==> r == Failure::Fatal(ParseError::at(kind, at as int)),
        f is Fatal ==> r == f,
{
    match f {
        Failure::Mismatch => fatal(kind, at),
        Failure::Fatal(e) => Failure::Fatal(e),
    }
}

/// The fatal error that a failed outcome stands for.
pub open spec fn failure_of<A>(p: Parsed<A>) -> Failure {
    match p {
        Parsed::Fatal(k, at) => Failure::Fatal(ParseError::at(k, at)),
        _ => Failure::Mismatch,
    }
}

/// Whether an executable result `r`, with the cursor moved from `start` to
/// `end`, is the outcome `p`: on a mismatch the cursor has not moved.
pub open spec fn outcome<T: View>(r: Result<T, Failure>, start: int, end: int, p: Parsed<T::V>) -> bool {
    match p {
        Parsed::Done(v, q) => r is Ok && r->Ok_0@ == v && end == q,
        Parsed::Mismatch => r == Err::<T, Failure>(Failure::Mismatch) && end == start,
        Parsed::Fatal(k, at) => r == Err::<T, Failure>(Failure::Fatal(ParseError::at(k, at))),
    }
}

/// The fatal error of kind `kind` at position `at`.
pub fn fatal(kind: ErrorKind, at: usize) -> (r: Failure)
    ensures
        r == Failure::Fatal(ParseError::at(kind, at as int)),
{
    Failure::Fatal(ParseError { kind, span: Span { start: at, end: at } })
}

/// `p` with `acc` put before the sequence it yields.
pub open spec fn prepend<A>(acc: Seq<A>, p: Parsed<Seq<A>>) -> Parsed<Seq<A>> {
    match p {
        Parsed::Done(v, q) => Parsed::Done(acc + v, q),
        Parsed::Mismatch => Parsed::Mismatch,
        Parsed::Fatal(k, at) => Parsed::Fatal(k, at),
    }
}

/// Putting `acc` and then `x` before a sequence puts `acc.push(x)` before it.
pub proof fn lemma_prepend_push<A>(acc: Seq<A>, x: A, p: Parsed<Seq<A>>)
    ensures
        prepend(acc, prepend(seq![x], p)) == prepend(acc.push(x), p),
{
    if let Parsed::Done(v, q) = p {
        assert(acc + (seq![x] + v) =~= acc.push(x) + v);
    }
}

/// Putting nothing before a sequence leaves the outcome as it is.
pub proof fn lemma_prepend_empty<A>(p: Parsed<Seq<A>>)
    ensures
        prepend(Seq::empty(), p) == p,
{
    if let Parsed::Done(v, q) = p {
        assert(Seq::<A>::empty() + v =~= v);
    }
}

/// Whether a public result `r`, with the cursor moved from `start` to `end`,
/// is the outcome `p` of a production that is required where it is tried: a
/// mismatch is then the fatal error `kind` at `start`.
pub open spec fn required<T: View>(
    r: Result<T, ParseError>,
    start: int,
    end: int,
    p: Parsed<T::V>,
    kind: ErrorKind,
) -> bool {
    match p {
        Parsed::Done(v, q) => r is Ok && r->Ok_0@ == v && end == q,
        Parsed::Mismatch => r == Err::<T, ParseError>(ParseError::at(kind, start)),
        Parsed::Fatal(k, at) => r == Err::<T, ParseError>(ParseError::at(k, at)),
    }
}

/// The public result for a failure: a mismatch becomes the fatal error `kind` at `at`.
pub fn commit(f: Failure, kind: ErrorKind, at: usize) -> (r: ParseError)
    ensures
        f is Mismatch ==> r == ParseError::at(kind, at as int),
        f is Fatal ==> r == f->Fatal_0,
{
    match f {
        Failure::Mismatch => ParseError { kind, span: Span { start: at, end: at } },
        Failure::Fatal(e) => e,
    }
}

} // verus!
