//! Double-quoted string literals, with their escape sequences decoded.
use vstd::prelude::*;
use crate::chars::{
    char_from_u32, digit_value, hex_digit, hex_digit_value, hex_value, is_hex_digit, push_char,
};
use crate::cursor::{skip_ws, lemma_run_end, CharClass, Cursor, Span};
use crate::error::{
    commit, fail_as, failure_of, fatal, lemma_prepend_empty, lemma_prepend_push, outcome, prepend, required, ErrorKind,
    Failure, ParseError, Parsed,
};

verus! {

/// A decoded string literal and the span of its source, quotes included.
#[derive(Debug)]
pub struct StrLit {
    pub content: String,
    pub span: Span,
}

/// What a [`StrLit`] holds, as mathematical values.
pub struct StrLitView {
    pub content: Seq<char>,
    pub span: Span,
}

impl View for StrLit {
    type V = StrLitView;

    open spec fn view(&self) -> StrLitView {
        StrLitView { content: self.content@, span: self.span }
    }
}

/// The number of the character `c`.
pub open spec fn code(c: char) -> nat {
    c as u32 as nat
}

/// The character whose number is `v`.
pub open spec fn char_of(v: nat) -> char {
    choose|c: char| #[trigger] code(c) == v
}

/// Distinct characters have distinct numbers; `char_of` names the character
/// of a number that has one.
pub proof fn lemma_code_injective(a: char, b: char)
    requires
        b == char_of(code(a)),
    ensures
        a == b,
{
    assert(code(b) == code(a));
    assert(a as u32 == b as u32);
}

/// The end of the run of at most `max` hexadecimal digits that starts at `p`.
pub open spec fn hex_run_end(s: Seq<char>, p: int, max: nat) -> int
    decreases max,
{
    if max > 0 && 0 <= p < s.len() && hex_digit(s[p]) {
        hex_run_end(s, p + 1, (max - 1) as nat)
    } else {
        p
    }
}

/// Whether `n` is the number of a Unicode scalar value.
pub open spec fn scalar_number(n: nat) -> bool {
    n < 0x110000 && !(0xd800 <= n && n <= 0xdfff)
}

/// A braced escape `{H..H}` at `b`, with at most `max` digits: the character
/// that the digits name.
pub open spec fn braced_escape(s: Seq<char>, b: int, max: nat) -> Parsed<char> {
    if !(0 <= b < s.len() && s[b] == '{') {
        Parsed::Fatal(ErrorKind::InvalidEscape, b)
    } else {
        let d = hex_run_end(s, b + 1, max);
        if !(d < s.len() && s[d] == '}') {
            Parsed::Fatal(ErrorKind::MissingClosingBrace, d)
        } else if d == b + 1 || !scalar_number(hex_value(s.subrange(b + 1, d))) {
            Parsed::Fatal(ErrorKind::InvalidCodepoint, d + 1)
        } else {
            Parsed::Done(char_of(hex_value(s.subrange(b + 1, d))), d + 1)
        }
    }
}

/// The escape whose letter is at `q` (just after a backslash): the character
/// it stands for.
pub open spec fn escape_at(s: Seq<char>, q: int) -> Parsed<char> {
    if !(0 <= q < s.len()) {
        Parsed::Fatal(ErrorKind::UnterminatedString, q)
    } else if s[q] == 'n' {
        Parsed::Done('\n', q + 1)
    } else if s[q] == 'r' {
        Parsed::Done('\r', q + 1)
    } else if s[q] == 't' {
        Parsed::Done('\t', q + 1)
    } else if s[q] == '\\' {
        Parsed::Done('\\', q + 1)
    } else if s[q] == '"' {
        Parsed::Done('"', q + 1)
    } else if s[q] == 'u' {
        braced_escape(s, q + 1, 4)
    } else if s[q] == 'U' {
        braced_escape(s, q + 1, 8)
    } else if s[q] == 'x' {
        if q + 2 < s.len() && hex_digit(s[q + 1]) && hex_digit(s[q + 2]) {
            Parsed::Done(char_of(hex_value(s.subrange(q + 1, q + 3))), q + 3)
        } else {
            Parsed::Fatal(ErrorKind::InvalidCodepoint, q + 1)
        }
    } else {
        Parsed::Fatal(ErrorKind::InvalidEscape, q)
    }
}

/// A run of at most `max` digits lies in the text and holds only digits.
pub proof fn lemma_hex_run(s: Seq<char>, p: int, max: nat)
    requires
        0 <= p <= s.len(),
    ensures
        p <= hex_run_end(s, p, max) <= p + max,
        hex_run_end(s, p, max) <= s.len(),
        forall|i: int| p <= i < hex_run_end(s, p, max) ==> hex_digit(#[trigger] s[i]),
    decreases max,
{
    if max > 0 && p < s.len() && hex_digit(s[p]) {
        lemma_hex_run(s, p + 1, (max - 1) as nat);
    }
}

/// An escape that succeeds ends past its letter and inside the text.
pub proof fn lemma_escape_progress(s: Seq<char>, q: int)
    requires
        0 <= q,
    ensures
        escape_at(s, q) is Done ==> q < escape_at(s, q)->Done_1 <= s.len(),
{
    if 0 <= q < s.len() && (s[q] == 'u' || s[q] == 'U') {
        if q + 1 < s.len() {
            lemma_hex_run(s, q + 2, if s[q] == 'u' { 4 } else { 8 });
        }
    }
}

/// The contents of a literal from `p`, just after its opening quote, up to and
/// including its closing quote.
pub open spec fn lit_body(s: Seq<char>, p: int) -> Parsed<Seq<char>>
    decreases s.len() - p,
{
    if !(0 <= p < s.len()) {
        Parsed::Fatal(ErrorKind::UnterminatedString, p)
    } else if s[p] == '\r' || s[p] == '\n' {
        Parsed::Fatal(ErrorKind::UnterminatedString, p)
    } else if s[p] == '"' {
        Parsed::Done(Seq::empty(), p + 1)
    } else if s[p] != '\\' {
        prepend(seq![s[p]], lit_body(s, p + 1))
    } else {
        proof {
            lemma_escape_progress(s, p + 1);
        }
        match escape_at(s, p + 1) {
            Parsed::Done(c, e) => prepend(seq![c], lit_body(s, e)),
            other => fail_as(other),
        }
    }
}

/// The body of a literal never fails to apply: it succeeds or fails fatally.
pub proof fn lemma_lit_body_applies(s: Seq<char>, p: int)
    ensures
        !(lit_body(s, p) is Mismatch),
    decreases s.len() - p,
{
    if 0 <= p < s.len() && s[p] != '\r' && s[p] != '\n' && s[p] != '"' {
        if s[p] != '\\' {
            lemma_lit_body_applies(s, p + 1);
        } else {
            lemma_escape_progress(s, p + 1);
            if let Parsed::Done(c, e) = escape_at(s, p + 1) {
                lemma_lit_body_applies(s, e);
            }
        }
    }
}

/// The body of a literal that succeeds ends past `p`, inside the text.
pub proof fn lemma_lit_body_end(s: Seq<char>, p: int)
    ensures
        lit_body(s, p) is Done ==> p < lit_body(s, p)->Done_1 <= s.len(),
    decreases s.len() - p,
{
    if 0 <= p < s.len() && s[p] != '\r' && s[p] != '\n' && s[p] != '"' {
        if s[p] != '\\' {
            lemma_lit_body_end(s, p + 1);
        } else {
            lemma_escape_progress(s, p + 1);
            if let Parsed::Done(c, e) = escape_at(s, p + 1) {
                lemma_lit_body_end(s, e);
            }
        }
    }
}

/// A string literal at `p`, after optional white space.
pub open spec fn strlit_at(s: Seq<char>, p: int) -> Parsed<StrLitView> {
    let q = skip_ws(s, p);
    if 0 <= q < s.len() && s[q] == '"' {
        match lit_body(s, q + 1) {
            Parsed::Done(content, e) => Parsed::Done(
                StrLitView { content, span: Span { start: q as usize, end: e as usize } },
                e,
            ),
            other => fail_as(other),
        }
    } else {
        Parsed::Mismatch
    }
}

/// `16` to the power `n`.
pub open spec fn pow16(n: nat) -> nat
    decreases n,
{
    if n == 0 {
        1
    } else {
        16 * pow16((n - 1) as nat)
    }
}

proof fn lemma_hex_value_bound(d: Seq<char>)
    requires
        forall|i: int| 0 <= i < d.len() ==> hex_digit(#[trigger] d[i]),
    ensures
        hex_value(d) < pow16(d.len()),
    decreases d.len(),
{
    if d.len() > 0 {
        let e = d.drop_last();
        assert forall|i: int| 0 <= i < e.len() implies hex_digit(#[trigger] e[i]) by {
            assert(e[i] == d[i]);
        }
        lemma_hex_value_bound(e);
        assert(digit_value(d.last()) < 16);
    }
}

proof fn lemma_pow16_mono(a: nat, b: nat)
    requires
        a <= b,
    ensures
        pow16(a) <= pow16(b),
    decreases b,
{
    if a < b {
        lemma_pow16_mono(a, (b - 1) as nat);
    }
}

/// The number that the hexadecimal digits `d` spell.
pub fn hex_number(d: &Vec<char>) -> (r: u32)
    requires
        d.len() <= 8,
        forall|i: int| 0 <= i < d.len() ==> hex_digit(#[trigger] d@[i]),
    ensures
        r == hex_value(d@),
{
    let mut v: u64 = 0;
    let mut i: usize = 0;
    proof {
        assert(d@.take(0) =~= Seq::<char>::empty());
        reveal_with_fuel(pow16, 2);
        lemma_pow16_mono(0, 8);
    }
    while i < d.len()
        invariant
            i <= d.len() <= 8,
            forall|j: int| 0 <= j < d.len() ==> hex_digit(#[trigger] d@[j]),
            v == hex_value(d@.take(i as int)),
            v < pow16(i as nat),
            pow16(i as nat) <= pow16(8),
        decreases d.len() - i,
    {
        proof {
            reveal_with_fuel(pow16, 9);
            lemma_pow16_mono((i + 1) as nat, 8);
            assert(d@.take(i + 1).drop_last() =~= d@.take(i as int));
            assert(d@.take(i + 1).last() == d@[i as int]);
            assert(pow16((i + 1) as nat) == 16 * pow16(i as nat));
        }
        let x = hex_digit_value(d[i]);
        v = v * 16 + x as u64;
        i = i + 1;
    }
    proof {
        assert(d@.take(d.len() as int) =~= d@);
        reveal_with_fuel(pow16, 9);
        assert(pow16(8) == 0x1_0000_0000);
    }
    v as u32
}

/// Reads `{H..H}` with at most `max` digits after an escape letter.
fn parse_braced(c: &mut Cursor, max: usize) -> (r: Result<char, Failure>)
    requires
        max == 4 || max == 8,
    ensures
        final(c).text() == old(c).text(),
        final(c).pos() <= final(c).text().len(),
        match braced_escape(old(c).text(), old(c).pos(), max as nat) {
            Parsed::Done(ch, e) => r == Ok::<char, Failure>(ch) && final(c).pos() == e,
            other => r == Err::<char, Failure>(failure_of(other)),
        },
{
    let ghost s = c.text();
    let b = c.position();
    if !c.take_char('{') {
        return Err(fatal(ErrorKind::InvalidEscape, b));
    }
    let start = c.spanner();
    let mut n: usize = 0;
    proof {
        lemma_hex_run(s, start as int, max as nat);
    }
    while n < max && c.has_next() && is_hex_digit(c.peek().unwrap())
        invariant
            c.text() == s,
            n <= max,
            c.pos() == start + n,
            c.pos() <= s.len(),
            hex_run_end(s, start as int, max as nat) == hex_run_end(s, c.pos(), (max - n) as nat),
        decreases max - n,
    {
        c.advance();
        n = n + 1;
    }
    let d = c.position();
    proof {
        lemma_hex_run(s, start as int, max as nat);
        assert(hex_run_end(s, d as int, (max - n) as nat) == d);
        assert(d == hex_run_end(s, b + 1, max as nat));
    }
    let span = c.span(start);
    if !c.take_char('}') {
        return Err(fatal(ErrorKind::MissingClosingBrace, d));
    }
    let after = c.position();
    if n == 0 {
        return Err(fatal(ErrorKind::InvalidCodepoint, after));
    }
    let digits = c.source_for_span(span);
    assert(digits@ == s.subrange(b + 1, d as int));
    assert forall|i: int| 0 <= i < digits.len() implies hex_digit(#[trigger] digits@[i]) by {
        assert(digits@[i] == s[start + i]);
    }
    let v = hex_number(&digits);
    match char_from_u32(v) {
        Some(ch) => {
            proof {
                lemma_code_injective(ch, char_of(v as nat));
            }
            Ok(ch)
        },
        None => Err(fatal(ErrorKind::InvalidCodepoint, after)),
    }
}

/// Reads an escape sequence whose backslash has been consumed.
fn parse_escape(c: &mut Cursor) -> (r: Result<char, Failure>)
    ensures
        final(c).text() == old(c).text(),
        final(c).pos() <= final(c).text().len(),
        match escape_at(old(c).text(), old(c).pos()) {
            Parsed::Done(ch, e) => r == Ok::<char, Failure>(ch) && final(c).pos() == e,
            other => r == Err::<char, Failure>(failure_of(other)),
        },
{
    let ghost s = c.text();
    let q = c.position();
    let letter = match c.advance() {
        Some(l) => l,
        None => return Err(fatal(ErrorKind::UnterminatedString, q)),
    };
    if letter == 'n' {
        Ok('\n')
    } else if letter == 'r' {
        Ok('\r')
    } else if letter == 't' {
        Ok('\t')
    } else if letter == '\\' {
        Ok('\\')
    } else if letter == '"' {
        Ok('"')
    } else if letter == 'u' {
        parse_braced(c, 4)
    } else if letter == 'U' {
        parse_braced(c, 8)
    } else if letter == 'x' {
        let after = c.position();
        let hi = match c.peek_nth(0) {
            Some(x) => x,
            None => return Err(fatal(ErrorKind::InvalidCodepoint, after)),
        };
        let lo = match c.peek_nth(1) {
            Some(x) => x,
            None => return Err(fatal(ErrorKind::InvalidCodepoint, after)),
        };
        if !(is_hex_digit(hi) && is_hex_digit(lo)) {
            return Err(fatal(ErrorKind::InvalidCodepoint, after));
        }
        c.advance();
        c.advance();
        let v = hex_digit_value(hi) * 16 + hex_digit_value(lo);
        proof {
            let d = s.subrange(q + 1, q + 3);
            assert(d.drop_last() =~= seq![hi]);
            assert(seq![hi].drop_last() =~= Seq::<char>::empty());
            assert(d.last() == lo);
            assert(hex_value(Seq::<char>::empty()) == 0);
            assert(hex_value(seq![hi]) == digit_value(hi));
            assert(hex_value(d) == v);
        }
        match char_from_u32(v) {
            Some(ch) => {
                proof {
                    lemma_code_injective(ch, char_of(v as nat));
                }
                Ok(ch)
            },
            None => Err(fatal(ErrorKind::InvalidCodepoint, after)),
        }
    } else {
        Err(fatal(ErrorKind::InvalidEscape, q))
    }
}

/// Reads the contents of a literal whose opening quote has been consumed, and
/// its closing quote.
fn parse_lit_body(c: &mut Cursor) -> (r: Result<String, Failure>)
    ensures
        final(c).text() == old(c).text(),
        final(c).pos() <= final(c).text().len(),
        r is Ok ==> old(c).pos() < final(c).pos(),
        match lit_body(old(c).text(), old(c).pos()) {
            Parsed::Done(v, e) => r is Ok && r->Ok_0@ == v && final(c).pos() == e,
            other => r == Err::<String, Failure>(failure_of(other)),
        },
{
    let ghost s = c.text();
    let start = c.position();
    let ghost p0 = start as int;
    let mut content = String::new();
    proof {
        lemma_prepend_empty(lit_body(s, p0));
    }
    loop
        invariant
            c.text() == s,
            s == old(c).text(),
            p0 == old(c).pos(),
            p0 <= c.pos() <= s.len(),
            lit_body(s, p0) == prepend(content@, lit_body(s, c.pos())),
        decreases s.len() - c.pos(),
    {
        let p = c.position();
        if !c.has_next() {
            return Err(fatal(ErrorKind::UnterminatedString, p));
        }
        let ch = c.peek().unwrap();
        if ch == '\r' || ch == '\n' {
            return Err(fatal(ErrorKind::UnterminatedString, p));
        }
        if ch == '"' {
            c.advance();
            proof {
                assert(content@ + Seq::<char>::empty() =~= content@);
            }
            return Ok(content);
        }
        c.advance();
        if ch != '\\' {
            proof {
                lemma_prepend_push(content@, ch, lit_body(s, p + 1));
            }
            push_char(&mut content, ch);
        } else {
            proof {
                lemma_escape_progress(s, p + 1);
            }
            match parse_escape(c) {
                Ok(e) => {
                    proof {
                        lemma_prepend_push(content@, e, lit_body(s, c.pos()));
                    }
                    push_char(&mut content, e);
                },
                Err(f) => return Err(f),
            }
        }
    }
}

/// Reads a string literal, after optional white space.
pub fn parse_strlit(c: &mut Cursor) -> (r: Result<StrLit, Failure>)
    ensures
        final(c).text() == old(c).text(),
        final(c).pos() <= final(c).text().len(),
        outcome(r, old(c).pos(), final(c).pos(), strlit_at(old(c).text(), old(c).pos())),
        r is Ok ==> old(c).pos() < final(c).pos(),
{
    let ghost s = c.text();
    let p = c.spanner();
    c.skip_whitespace();
    let q = c.spanner();
    proof {
        lemma_run_end(s, p as int, CharClass::Whitespace);
    }
    if !c.take_char('"') {
        c.rewind(p);
        return Err(Failure::Mismatch);
    }
    proof {
        lemma_lit_body_applies(s, q + 1);
    }
    match parse_lit_body(c) {
        Ok(content) => {
            let span = c.span(q);
            Ok(StrLit { content, span })
        },
        Err(f) => Err(f),
    }
}

impl StrLit {
    /// Reads a string literal, after optional white space; where none starts,
    /// the error is [`ErrorKind::ExpectedStringLiteral`].
    pub fn parse(input: &mut Cursor) -> (r: Result<StrLit, ParseError>)
        ensures
            final(input).text() == old(input).text(),
            required(
                r,
                old(input).pos(),
                final(input).pos(),
                strlit_at(old(input).text(), old(input).pos()),
                ErrorKind::ExpectedStringLiteral,
            ),
    {
        let start = input.position();
        match parse_strlit(input) {
            Ok(lit) => Ok(lit),
            Err(f) => Err(commit(f, ErrorKind::ExpectedStringLiteral, start)),
        }
    }
}

} // verus!
