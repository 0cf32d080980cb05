//! A positional scanner over the characters of a source text.
//!
//! The position is a single index, so a speculative parse saves it with
//! [`Cursor::spanner`] and restores it with [`Cursor::rewind`].
use vstd::prelude::*;
use crate::chars::{
    alphanumeric, ascii_alnum, chars_of, is_alphanumeric, is_ascii_alnum, is_whitespace,
    string_of, white_space,
};

verus! {

/// A half-open range `[start, end)` of character positions in a source text.
#[derive(Clone, Copy, Debug, PartialEq, Eq, Structural)]
pub struct Span {
    pub start: usize,
    pub end: usize,
}

impl Span {
    /// The empty span at `at`.
    pub open spec fn point(at: int) -> Span {
        Span { start: at as usize, end: at as usize }
    }
}

/// A class of characters that [`Cursor::take_while`] consumes runs of.
#[derive(Clone, Copy, Debug, PartialEq, Eq, Structural)]
pub enum CharClass {
    /// Unicode white space.
    Whitespace,
    /// ASCII letters and digits: the characters of tag and attribute names.
    AsciiAlnum,
    /// Letters, digits, `_` and `-`: the characters of directive names.
    NameChar,
    /// Every character but the one given.
    Not(char),
}

/// Whether `c` belongs to the class `k`.
pub open spec fn in_class(k: CharClass, c: char) -> bool {
    match k {
        CharClass::Whitespace => white_space(c),
        CharClass::AsciiAlnum => ascii_alnum(c),
        CharClass::NameChar => alphanumeric(c) || c == '_' || c == '-',
        CharClass::Not(x) => c != x,
    }
}

/// Whether `c` belongs to the class `k`.
pub fn class_contains(k: CharClass, c: char) -> (r: bool)
    ensures
        r == in_class(k, c),
{
    match k {
        CharClass::Whitespace => is_whitespace(c),
        CharClass::AsciiAlnum => is_ascii_alnum(c),
        CharClass::NameChar => is_alphanumeric(c) || c == '_' || c == '-',
        CharClass::Not(x) => c != x,
    }
}

/// The end of the longest run of characters of class `k` that starts at `p`.
pub open spec fn run_end(s: Seq<char>, p: int, k: CharClass) -> int
    decreases s.len() - p,
{
    if 0 <= p < s.len() && in_class(k, s[p]) {
        run_end(s, p + 1, k)
    } else {
        p
    }
}

/// The position of the first character at or after `p` that is not white space.
pub open spec fn skip_ws(s: Seq<char>, p: int) -> int {
    run_end(s, p, CharClass::Whitespace)
}

/// The run that ends at `run_end` lies in the text, holds only characters of
/// the class, and stops before one that is not.
pub proof fn lemma_run_end(s: Seq<char>, p: int, k: CharClass)
    requires
        0 <= p <= s.len(),
    ensures
        p <= run_end(s, p, k) <= s.len(),
        forall|i: int| p <= i < run_end(s, p, k) ==> in_class(k, #[trigger] s[i]),
        run_end(s, p, k) < s.len() ==> !in_class(k, s[run_end(s, p, k)]),
    decreases s.len() - p,
{
    if p < s.len() && in_class(k, s[p]) {
        lemma_run_end(s, p + 1, k);
    }
}

/// A run that is known to hold only characters of the class and to stop before
/// one that is not ends where `run_end` says.
pub proof fn lemma_run_end_at(s: Seq<char>, p: int, e: int, k: CharClass)
    requires
        0 <= p <= e <= s.len(),
        forall|i: int| p <= i < e ==> in_class(k, #[trigger] s[i]),
        e < s.len() ==> !in_class(k, s[e]),
    ensures
        run_end(s, p, k) == e,
    decreases e - p,
{
    if p < e {
        lemma_run_end_at(s, p + 1, e, k);
    }
}

/// A scanner over a source text: the text's characters and a position in them.
pub struct Cursor {
    src: Vec<char>,
    pos: usize,
}

impl Cursor {
    #[verifier::type_invariant]
    spec fn inv(&self) -> bool {
        self.pos <= self.src.len()
    }

    /// The characters of the source text.
    pub closed spec fn text(&self) -> Seq<char> {
        self.src@
    }

    /// The position of the next character to read.
    pub closed spec fn pos(&self) -> int {
        self.pos as int
    }

    /// A cursor at the start of `source`.
    pub fn new(source: &str) -> (r: Cursor)
        ensures
            r.text() == source@,
            r.pos() == 0,
    {
        Cursor { src: chars_of(source), pos: 0 }
    }

    /// The position of the next character to read.
    pub fn position(&self) -> (r: usize)
        ensures
            r == self.pos(),
            r <= self.text().len(),
    {
        proof {
            use_type_invariant(self);
        }
        self.pos
    }

    /// Whether characters remain to be read.
    pub fn has_next(&self) -> (r: bool)
        ensures
            r == (self.pos() < self.text().len()),
    {
        self.pos < self.src.len()
    }

    /// The character `n` places after the next one, without consuming anything.
    pub fn peek_nth(&self, n: usize) -> (r: Option<char>)
        ensures
            self.pos() + n < self.text().len() ==> r == Some(self.text()[self.pos() + n]),
            self.pos() + n >= self.text().len() ==> r is None,
    {
        proof {
            use_type_invariant(self);
        }
        if n < self.src.len() - self.pos {
            Some(self.src[self.pos + n])
        } else {
            None
        }
    }

    /// The next character, without consuming it.
    pub fn peek(&self) -> (r: Option<char>)
        ensures
            self.pos() < self.text().len() ==> r == Some(self.text()[self.pos()]),
            self.pos() >= self.text().len() ==> r is None,
    {
        self.peek_nth(0)
    }

    /// Consumes and returns the next character, if there is one.
    pub fn advance(&mut self) -> (r: Option<char>)
        ensures
            final(self).text() == old(self).text(),
            final(self).pos() <= final(self).text().len(),
            old(self).pos() < old(self).text().len() ==> r == Some(old(self).text()[old(
                self,
            ).pos()]) && final(self).pos() == old(self).pos() + 1,
            old(self).pos() >= old(self).text().len() ==> r is None && final(self).pos() == old(
                self,
            ).pos(),
    {
        proof {
            use_type_invariant(&*self);
        }
        if self.pos < self.src.len() {
            let c = self.src[self.pos];
            self.pos = self.pos + 1;
            Some(c)
        } else {
            None
        }
    }

    /// Consumes the next character if it is `c`, and says whether it did.
    pub fn take_char(&mut self, c: char) -> (r: bool)
        ensures
            final(self).text() == old(self).text(),
            final(self).pos() <= final(self).text().len(),
            r == (old(self).pos() < old(self).text().len() && old(self).text()[old(self).pos()]
                == c),
            final(self).pos() == if r {
                old(self).pos() + 1
            } else {
                old(self).pos()
            },
    {
        proof {
            use_type_invariant(&*self);
        }
        if self.pos < self.src.len() && self.src[self.pos] == c {
            self.pos = self.pos + 1;
            true
        } else {
            false
        }
    }

    /// Consumes the longest run of characters of class `k`, possibly empty, and
    /// returns its span.
    pub fn take_while(&mut self, k: CharClass) -> (r: Span)
        ensures
            final(self).text() == old(self).text(),
            final(self).pos() <= final(self).text().len(),
            final(self).pos() == run_end(old(self).text(), old(self).pos(), k),
            r.start == old(self).pos(),
            r.end == final(self).pos(),
    {
        proof {
            use_type_invariant(&*self);
        }
        let start = self.pos;
        while self.pos < self.src.len() && class_contains(k, self.src[self.pos])
            invariant
                self.src@ == old(self).src@,
                start == old(self).pos,
                start <= self.pos <= self.src.len(),
                run_end(self.src@, start as int, k) == run_end(self.src@, self.pos as int, k),
            decreases self.src.len() - self.pos,
        {
            self.pos = self.pos + 1;
        }
        Span { start, end: self.pos }
    }

    /// Skips white space.
    pub fn skip_whitespace(&mut self)
        ensures
            final(self).text() == old(self).text(),
            final(self).pos() <= final(self).text().len(),
            final(self).pos() == skip_ws(old(self).text(), old(self).pos()),
    {
        self.take_while(CharClass::Whitespace);
    }

    /// Marks the current position, as the start of a span or as a point to
    /// come back to.
    pub fn spanner(&self) -> (r: usize)
        ensures
            r == self.pos(),
            r <= self.text().len(),
    {
        self.position()
    }

    /// The span from the mark `start` to the current position.
    pub fn span(&self, start: usize) -> (r: Span)
        requires
            start <= self.pos(),
        ensures
            r == (Span { start, end: self.pos() as usize }),
    {
        Span { start, end: self.position() }
    }

    /// Moves back (or forward) to the mark `mark`.
    pub fn rewind(&mut self, mark: usize)
        requires
            mark <= old(self).text().len(),
        ensures
            final(self).text() == old(self).text(),
            final(self).pos() == mark,
    {
        self.pos = mark;
    }

    /// The source characters that `span` covers.
    pub fn source_for_span(&self, span: Span) -> (r: Vec<char>)
        requires
            span.start <= span.end <= self.text().len(),
        ensures
            r@ == self.text().subrange(span.start as int, span.end as int),
    {
        let mut r: Vec<char> = Vec::new();
        let mut i = span.start;
        while i < span.end
            invariant
                span.start <= i <= span.end <= self.src.len(),
                r@ == self.src@.subrange(span.start as int, i as int),
            decreases span.end - i,
        {
            r.push(self.src[i]);
            assert(self.src@.subrange(span.start as int, i + 1) =~= self.src@.subrange(
                span.start as int,
                i as int,
            ).push(self.src@[i as int]));
            i = i + 1;
        }
        r
    }

    /// The source text that `span` covers, as a string.
    pub fn string_for_span(&self, span: Span) -> (r: String)
        requires
            span.start <= span.end <= self.text().len(),
        ensures
            r@ == self.text().subrange(span.start as int, span.end as int),
    {
        let v = self.source_for_span(span);
        string_of(&v)
    }
}

} // verus!
