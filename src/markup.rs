//! The tag grammar: open tags with attributes, children, and closing tags.
//!
//! A tag's children run until a closing tag. One of the tag's own name (ASCII
//! case ignored) is consumed and ends the tag explicitly; one of another name
//! ends it implicitly and is left for an enclosing tag. The end of the input
//! before a closing tag is an error.
use vstd::prelude::*;
use crate::chars::{ascii_alnum, eq_ignore_ascii_case, is_ascii_alnum, same_ignoring_ascii_case, string_of};
use crate::cursor::{lemma_run_end, run_end, skip_ws, CharClass, Cursor, Span};
use crate::error::{
    commit, committed, fail_as, fail_committed, failure_of, fatal, lemma_prepend_empty, lemma_prepend_push, outcome, prepend,
    required, ErrorKind, Failure, ParseError, Parsed,
};
use crate::html::{
    attributes_view, children_view, lemma_attributes_view_push, lemma_children_view_push,
    tag_name, Attribute, AttributeView, Child, ChildView, Closing, Tag, TagView,
};

verus! {

/// How deeply tags may nest.
pub const MAX_DEPTH: usize = 128;

/// A tag or attribute name at `p`, after optional white space.
pub open spec fn name_at(s: Seq<char>, p: int) -> Parsed<Seq<char>> {
    let q = skip_ws(s, p);
    if 0 <= q < s.len() && ascii_alnum(s[q]) {
        let e = run_end(s, q, CharClass::AsciiAlnum);
        Parsed::Done(s.subrange(q, e), e)
    } else {
        Parsed::Mismatch
    }
}

/// An attribute value at `p`, after optional white space: the characters
/// between two quotes, taken as they stand.
pub open spec fn value_at(s: Seq<char>, p: int) -> Parsed<Seq<char>> {
    let q = skip_ws(s, p);
    if 0 <= q < s.len() && s[q] == '"' {
        let e = run_end(s, q + 1, CharClass::Not('"'));
        if e < s.len() {
            Parsed::Done(s.subrange(q + 1, e), e + 1)
        } else {
            Parsed::Fatal(ErrorKind::ExpectedQuote, e)
        }
    } else {
        Parsed::Mismatch
    }
}

/// An attribute at `p`: a name, and `=` and a value if an `=` follows.
pub open spec fn attribute_at(s: Seq<char>, p: int) -> Parsed<AttributeView> {
    match name_at(s, p) {
        Parsed::Done(name, e) => {
            let q = skip_ws(s, e);
            if 0 <= q < s.len() && s[q] == '=' {
                match value_at(s, q + 1) {
                    Parsed::Done(v, f) => Parsed::Done(AttributeView { name, value: Some(v) }, f),
                    Parsed::Mismatch => Parsed::Fatal(ErrorKind::ExpectedStringLiteral, q + 1),
                    Parsed::Fatal(k, at) => Parsed::Fatal(k, at),
                }
            } else {
                Parsed::Done(AttributeView { name, value: None }, e)
            }
        },
        _ => Parsed::Mismatch,
    }
}

/// Whether the attributes of an open tag end at `q`: at the end of the input,
/// at `>`, or at `/>`.
pub open spec fn open_tag_end(s: Seq<char>, q: int) -> bool {
    q >= s.len() || s[q] == '>' || (s[q] == '/' && q + 1 < s.len() && s[q + 1] == '>')
}

/// A name that succeeds is not empty and lies in the text.
pub proof fn lemma_name_progress(s: Seq<char>, p: int)
    requires
        0 <= p <= s.len(),
    ensures
        name_at(s, p) is Done ==> p < name_at(s, p)->Done_1 <= s.len(),
        name_at(s, p) is Done ==> skip_ws(s, p) < name_at(s, p)->Done_1,
{
    lemma_run_end(s, p, CharClass::Whitespace);
    let q = skip_ws(s, p);
    if 0 <= q < s.len() && ascii_alnum(s[q]) {
        lemma_run_end(s, q, CharClass::AsciiAlnum);
    }
}

/// An attribute that succeeds is not empty and lies in the text.
pub proof fn lemma_attribute_progress(s: Seq<char>, p: int)
    requires
        0 <= p <= s.len(),
    ensures
        attribute_at(s, p) is Done ==> p < attribute_at(s, p)->Done_1 <= s.len(),
{
    lemma_name_progress(s, p);
    if let Parsed::Done(name, e) = name_at(s, p) {
        lemma_run_end(s, e, CharClass::Whitespace);
        let q = skip_ws(s, e);
        if 0 <= q < s.len() && s[q] == '=' {
            lemma_run_end(s, q + 1, CharClass::Whitespace);
            let r = skip_ws(s, q + 1);
            if 0 <= r < s.len() && s[r] == '"' {
                lemma_run_end(s, r + 1, CharClass::Not('"'));
            }
        }
    }
}

/// The attributes of an open tag from `p`, up to where they end.
pub open spec fn attributes_at(s: Seq<char>, p: int) -> Parsed<Seq<AttributeView>>
    decreases s.len() - p,
{
    if !(0 <= p <= s.len()) {
        Parsed::Mismatch
    } else {
        let q = skip_ws(s, p);
        proof {
            lemma_run_end(s, p, CharClass::Whitespace);
            lemma_attribute_progress(s, q);
        }
        if open_tag_end(s, q) {
            Parsed::Done(Seq::empty(), q)
        } else {
            match attribute_at(s, q) {
                Parsed::Done(a, e) => prepend(seq![a], attributes_at(s, e)),
                Parsed::Mismatch => Parsed::Fatal(ErrorKind::ExpectedAttribute, q),
                Parsed::Fatal(k, at) => Parsed::Fatal(k, at),
            }
        }
    }
}

/// Attributes that succeed end, inside the text, where an open tag's attributes end.
pub proof fn lemma_attributes_end(s: Seq<char>, p: int)
    requires
        0 <= p <= s.len(),
    ensures
        !(attributes_at(s, p) is Mismatch),
        attributes_at(s, p) is Done ==> p <= attributes_at(s, p)->Done_1 <= s.len()
            && open_tag_end(s, attributes_at(s, p)->Done_1),
    decreases s.len() - p,
{
    lemma_run_end(s, p, CharClass::Whitespace);
    let q = skip_ws(s, p);
    lemma_attribute_progress(s, q);
    if !open_tag_end(s, q) {
        if let Parsed::Done(a, e) = attribute_at(s, q) {
            lemma_attributes_end(s, e);
        }
    }
}

/// A closing tag `</name>` at `p`: its name.
pub open spec fn closing_tag_at(s: Seq<char>, p: int) -> Parsed<Seq<char>> {
    if 0 <= p && p + 1 < s.len() && s[p] == '<' && s[p + 1] == '/' {
        match name_at(s, p + 2) {
            Parsed::Done(n, e) => {
                let q = skip_ws(s, e);
                if 0 <= q < s.len() && s[q] == '>' {
                    Parsed::Done(n, q + 1)
                } else {
                    Parsed::Fatal(ErrorKind::ExpectedRightArrow, q)
                }
            },
            _ => Parsed::Fatal(ErrorKind::ExpectedTagName, p + 2),
        }
    } else {
        Parsed::Mismatch
    }
}

/// `r` with the child `c` put before the children it yields.
pub open spec fn prepend_child(c: ChildView, r: Parsed<(Seq<ChildView>, Closing)>) -> Parsed<
    (Seq<ChildView>, Closing),
> {
    prepend_children(seq![c], r)
}

/// `r` with the children `acc` put before the children it yields.
pub open spec fn prepend_children(
    acc: Seq<ChildView>,
    r: Parsed<(Seq<ChildView>, Closing)>,
) -> Parsed<(Seq<ChildView>, Closing)> {
    match r {
        Parsed::Done(body, q) => Parsed::Done((acc + body.0, body.1), q),
        Parsed::Mismatch => Parsed::Mismatch,
        Parsed::Fatal(k, at) => Parsed::Fatal(k, at),
    }
}

/// A tag at `p`, nested `depth` tags deep.
pub open spec fn tag_at(s: Seq<char>, p: int, depth: nat) -> Parsed<TagView>
    decreases s.len() - p, 0int,
{
    if !(0 <= p < s.len() && s[p] == '<') {
        Parsed::Mismatch
    } else if depth >= MAX_DEPTH {
        Parsed::Fatal(ErrorKind::NestingTooDeep, p)
    } else {
        proof {
            lemma_name_progress(s, p + 1);
        }
        match name_at(s, p + 1) {
            Parsed::Done(name, e) => {
                proof {
                    lemma_attributes_end(s, e);
                }
                match attributes_at(s, e) {
                    Parsed::Done(attributes, q) => {
                        if q < s.len() && s[q] == '/' {
                            Parsed::Done(
                                TagView {
                                    name,
                                    attributes,
                                    children: Seq::empty(),
                                    closing: Closing::Inline,
                                },
                                q + 2,
                            )
                        } else if q < s.len() && s[q] == '>' {
                            match children_at(s, q + 1, name, depth) {
                                Parsed::Done(body, f) => Parsed::Done(
                                    TagView { name, attributes, children: body.0, closing: body.1 },
                                    f,
                                ),
                                other => fail_committed(other, ErrorKind::ExpectedClosingTag, q + 1),
                            }
                        } else {
                            Parsed::Fatal(ErrorKind::ExpectedRightArrow, q)
                        }
                    },
                    other => fail_committed(other, ErrorKind::ExpectedAttribute, e),
                }
            },
            _ => Parsed::Fatal(ErrorKind::ExpectedTagName, p + 1),
        }
    }
}

/// The children of a tag named `name` from `p`, and how the tag ends.
pub open spec fn children_at(s: Seq<char>, p: int, name: Seq<char>, depth: nat) -> Parsed<
    (Seq<ChildView>, Closing),
>
    decreases s.len() - p, 1int,
{
    if !(0 <= p < s.len()) {
        Parsed::Fatal(ErrorKind::ExpectedClosingTag, p)
    } else {
        match closing_tag_at(s, p) {
            Parsed::Done(n, e) => {
                if same_ignoring_ascii_case(n, name) {
                    Parsed::Done((Seq::empty(), Closing::Explicit), e)
                } else {
                    Parsed::Done((Seq::empty(), Closing::Implicit), p)
                }
            },
            Parsed::Fatal(k, at) => Parsed::Fatal(k, at),
            Parsed::Mismatch => {
                if s[p] == '<' {
                    match tag_at(s, p, depth + 1) {
                        Parsed::Done(t, e) => {
                            if p < e <= s.len() {
                                prepend_child(ChildView::Tag(t), children_at(s, e, name, depth))
                            } else {
                                Parsed::Fatal(ErrorKind::ExpectedClosingTag, p)
                            }
                        },
                        other => fail_committed(other, ErrorKind::ExpectedTag, p),
                    }
                } else {
                    let e = run_end(s, p, CharClass::Not('<'));
                    proof {
                        lemma_run_end(s, p, CharClass::Not('<'));
                    }
                    prepend_child(ChildView::Text(s.subrange(p, e)), children_at(s, e, name, depth))
                }
            },
        }
    }
}

/// Putting `acc` and then `x` before the children puts `acc.push(x)` before them.
pub proof fn lemma_prepend_children_push(
    acc: Seq<ChildView>,
    x: ChildView,
    r: Parsed<(Seq<ChildView>, Closing)>,
)
    ensures
        prepend_children(acc, prepend_child(x, r)) == prepend_children(acc.push(x), r),
{
    if let Parsed::Done(body, q) = r {
        assert(acc + (seq![x] + body.0) =~= acc.push(x) + body.0);
    }
}

/// Reads a tag or attribute name, after optional white space.
fn parse_name(c: &mut Cursor) -> (r: Result<Vec<char>, Failure>)
    ensures
        final(c).text() == old(c).text(),
        final(c).pos() <= final(c).text().len(),
        outcome(r, old(c).pos(), final(c).pos(), name_at(old(c).text(), old(c).pos())),
{
    let ghost s = c.text();
    let p = c.spanner();
    c.skip_whitespace();
    proof {
        lemma_run_end(s, p as int, CharClass::Whitespace);
    }
    if !(c.has_next() && is_ascii_alnum(c.peek().unwrap())) {
        c.rewind(p);
        return Err(Failure::Mismatch);
    }
    proof {
        lemma_run_end(s, c.pos(), CharClass::AsciiAlnum);
    }
    let span = c.take_while(CharClass::AsciiAlnum);
    Ok(c.source_for_span(span))
}

/// Reads a quoted attribute value, after optional white space.
fn parse_value(c: &mut Cursor) -> (r: Result<String, Failure>)
    ensures
        final(c).text() == old(c).text(),
        final(c).pos() <= final(c).text().len(),
        outcome(r, old(c).pos(), final(c).pos(), value_at(old(c).text(), old(c).pos())),
{
    let ghost s = c.text();
    let p = c.spanner();
    c.skip_whitespace();
    proof {
        lemma_run_end(s, p as int, CharClass::Whitespace);
    }
    if !c.take_char('"') {
        c.rewind(p);
        return Err(Failure::Mismatch);
    }
    proof {
        lemma_run_end(s, c.pos(), CharClass::Not('"'));
    }
    let span = c.take_while(CharClass::Not('"'));
    if !c.take_char('"') {
        return Err(fatal(ErrorKind::ExpectedQuote, span.end));
    }
    Ok(c.string_for_span(span))
}

/// Reads an attribute.
fn parse_attribute(c: &mut Cursor) -> (r: Result<Attribute, Failure>)
    ensures
        final(c).text() == old(c).text(),
        final(c).pos() <= final(c).text().len(),
        outcome(r, old(c).pos(), final(c).pos(), attribute_at(old(c).text(), old(c).pos())),
{
    let ghost s = c.text();
    let name = match parse_name(c) {
        Ok(n) => n,
        Err(f) => return Err(f),
    };
    let e = c.spanner();
    c.skip_whitespace();
    proof {
        lemma_run_end(s, e as int, CharClass::Whitespace);
    }
    if c.take_char('=') {
        let after = c.position();
        match parse_value(c) {
            Ok(v) => Ok(Attribute { name: string_of(&name), value: Some(v) }),
            Err(Failure::Mismatch) => Err(fatal(ErrorKind::ExpectedStringLiteral, after)),
            Err(f) => Err(f),
        }
    } else {
        c.rewind(e);
        Ok(Attribute { name: string_of(&name), value: None })
    }
}

/// Whether the attributes of an open tag end at the cursor.
fn at_open_tag_end(c: &Cursor) -> (r: bool)
    ensures
        r == open_tag_end(c.text(), c.pos()),
{
    match c.peek() {
        None => true,
        Some(ch) => {
            if ch == '>' {
                true
            } else if ch == '/' {
                match c.peek_nth(1) {
                    Some(next) => next == '>',
                    None => false,
                }
            } else {
                false
            }
        },
    }
}

/// Reads the attributes of an open tag, up to where they end.
fn parse_attributes(c: &mut Cursor) -> (r: Result<Vec<Attribute>, Failure>)
    ensures
        final(c).text() == old(c).text(),
        final(c).pos() <= final(c).text().len(),
        match attributes_at(old(c).text(), old(c).pos()) {
            Parsed::Done(v, q) => r is Ok && attributes_view(r->Ok_0@) == v && final(c).pos()
                == q,
            other => r == Err::<Vec<Attribute>, Failure>(failure_of(other)),
        },
{
    let ghost s = c.text();
    let start = c.position();
    let ghost p0 = start as int;
    let mut attrs: Vec<Attribute> = Vec::new();
    proof {
        assert(attributes_view(attrs@) =~= Seq::empty());
        lemma_prepend_empty(attributes_at(s, p0));
    }
    loop
        invariant
            c.text() == s,
            s == old(c).text(),
            p0 == old(c).pos(),
            p0 <= c.pos() <= s.len(),
            attributes_at(s, p0) == prepend(attributes_view(attrs@), attributes_at(s, c.pos())),
        decreases s.len() - c.pos(),
    {
        let ghost p = c.pos();
        c.skip_whitespace();
        let q = c.position();
        proof {
            lemma_run_end(s, p, CharClass::Whitespace);
            lemma_attribute_progress(s, q as int);
        }
        if at_open_tag_end(c) {
            proof {
                assert(attributes_view(attrs@) + Seq::<AttributeView>::empty() =~= attributes_view(
                    attrs@,
                ));
            }
            return Ok(attrs);
        }
        match parse_attribute(c) {
            Ok(a) => {
                proof {
                    lemma_attributes_view_push(attrs@, a);
                    lemma_prepend_push(attributes_view(attrs@), a@, attributes_at(s, c.pos()));
                }
                attrs.push(a);
            },
            Err(Failure::Mismatch) => return Err(fatal(ErrorKind::ExpectedAttribute, q)),
            Err(f) => return Err(f),
        }
    }
}

/// Reads a closing tag `</name>`.
fn parse_closing_tag(c: &mut Cursor) -> (r: Result<Vec<char>, Failure>)
    ensures
        final(c).text() == old(c).text(),
        final(c).pos() <= final(c).text().len(),
        outcome(r, old(c).pos(), final(c).pos(), closing_tag_at(old(c).text(), old(c).pos())),
        r is Ok ==> old(c).pos() < final(c).pos(),
{
    let ghost s = c.text();
    let p = c.position();
    let opens = match c.peek() {
        Some(a) => a == '<' && match c.peek_nth(1) {
            Some(b) => b == '/',
            None => false,
        },
        None => false,
    };
    if !opens {
        return Err(Failure::Mismatch);
    }
    c.advance();
    c.advance();
    let after = c.position();
    let name = match parse_name(c) {
        Ok(n) => n,
        Err(_) => return Err(fatal(ErrorKind::ExpectedTagName, after)),
    };
    proof {
        lemma_name_progress(s, after as int);
        lemma_run_end(s, c.pos(), CharClass::Whitespace);
    }
    c.skip_whitespace();
    let q = c.position();
    if !c.take_char('>') {
        return Err(fatal(ErrorKind::ExpectedRightArrow, q));
    }
    Ok(name)
}

/// Reads a tag nested `depth` tags deep, with its children.
pub(crate) fn parse_tag(c: &mut Cursor, depth: usize) -> (r: Result<Tag, Failure>)
    requires
        depth <= MAX_DEPTH,
    ensures
        final(c).text() == old(c).text(),
        final(c).pos() <= final(c).text().len(),
        outcome(r, old(c).pos(), final(c).pos(), tag_at(old(c).text(), old(c).pos(), depth as nat)),
        r is Ok ==> old(c).pos() < final(c).pos(),
    decreases MAX_DEPTH - depth,
{
    let ghost s = c.text();
    let p = c.position();
    if !c.take_char('<') {
        return Err(Failure::Mismatch);
    }
    if depth >= MAX_DEPTH {
        return Err(fatal(ErrorKind::NestingTooDeep, p));
    }
    let after = c.position();
    proof {
        lemma_name_progress(s, after as int);
    }
    let name = match parse_name(c) {
        Ok(n) => n,
        Err(_) => return Err(fatal(ErrorKind::ExpectedTagName, after)),
    };
    let e = c.position();
    proof {
        lemma_attributes_end(s, e as int);
    }
    let attributes = match parse_attributes(c) {
        Ok(a) => a,
        Err(f) => return Err(committed(f, ErrorKind::ExpectedAttribute, e)),
    };
    let q = c.position();
    let name_text = string_of(&name);
    if c.take_char('/') {
        c.advance();
        let t = Tag { name: name_text, attributes, children: Vec::new(), closing: Closing::Inline };
        proof {
            assert(children_view(t.children@) =~= Seq::empty());
        }
        return Ok(t);
    }
    if !c.take_char('>') {
        return Err(fatal(ErrorKind::ExpectedRightArrow, q));
    }
    let ghost p1 = c.pos();
    let ghost attrs_view = attributes_view(attributes@);
    let mut kids: Vec<Child> = Vec::new();
    proof {
        assert(children_view(kids@) =~= Seq::empty());
        assert(prepend_children(Seq::empty(), children_at(s, p1, name@, depth as nat))
            == children_at(s, p1, name@, depth as nat)) by {
            if let Parsed::Done(body, f) = children_at(s, p1, name@, depth as nat) {
                assert(Seq::<ChildView>::empty() + body.0 =~= body.0);
            }
        }
    }
    loop
        invariant
            c.text() == s,
            s == old(c).text(),
            p == old(c).pos(),
            p < p1 <= c.pos() <= s.len(),
            depth < MAX_DEPTH,
            name_text@ == name@,
            attrs_view == attributes_view(attributes@),
            tag_at(s, p as int, depth as nat) == (match children_at(s, p1, name@, depth as nat) {
                Parsed::Done(body, f) => Parsed::Done(
                    TagView { name: name@, attributes: attrs_view, children: body.0, closing: body.1 },
                    f,
                ),
                other => fail_committed(other, ErrorKind::ExpectedClosingTag, p1),
            }),
            children_at(s, p1, name@, depth as nat) == prepend_children(
                children_view(kids@),
                children_at(s, c.pos(), name@, depth as nat),
            ),
        decreases s.len() - c.pos(),
    {
        let here = c.position();
        if !c.has_next() {
            return Err(fatal(ErrorKind::ExpectedClosingTag, here));
        }
        match parse_closing_tag(c) {
            Ok(n) => {
                let explicit = eq_ignore_ascii_case(&n, &name);
                if !explicit {
                    c.rewind(here);
                }
                let closing = if explicit { Closing::Explicit } else { Closing::Implicit };
                let t = Tag { name: name_text, attributes, children: kids, closing };
                proof {
                    assert(children_view(t.children@) + Seq::<ChildView>::empty() =~= children_view(
                        t.children@,
                    ));
                }
                return Ok(t);
            },
            Err(Failure::Fatal(err)) => return Err(Failure::Fatal(err)),
            Err(Failure::Mismatch) => {},
        }
        let next = c.peek().unwrap();
        if next == '<' {
            match parse_tag(c, depth + 1) {
                Ok(t) => {
                    proof {
                        lemma_children_view_push(kids@, Child::Tag(t));
                        lemma_prepend_children_push(
                            children_view(kids@),
                            ChildView::Tag(t@),
                            children_at(s, c.pos(), name@, depth as nat),
                        );
                    }
                    kids.push(Child::Tag(t));
                },
                Err(f) => return Err(committed(f, ErrorKind::ExpectedTag, here)),
            }
        } else {
            let span = c.take_while(CharClass::Not('<'));
            proof {
                lemma_run_end(s, here as int, CharClass::Not('<'));
            }
            let text = c.string_for_span(span);
            proof {
                lemma_children_view_push(kids@, Child::Text(text));
                lemma_prepend_children_push(
                    children_view(kids@),
                    ChildView::Text(text@),
                    children_at(s, c.pos(), name@, depth as nat),
                );
            }
            kids.push(Child::Text(text));
        }
    }
}

/// A tag or attribute name and the span of its characters.
#[derive(Debug)]
pub struct HtmlIdent {
    pub name: String,
    pub span: Span,
}

impl View for HtmlIdent {
    type V = (Seq<char>, Span);

    open spec fn view(&self) -> (Seq<char>, Span) {
        (self.name@, self.span)
    }
}

/// A quoted attribute value, taken as it stands, and the span of its source,
/// quotes included.
#[derive(Debug)]
pub struct HtmlStrLit {
    pub content: String,
    pub span: Span,
}

impl View for HtmlStrLit {
    type V = (Seq<char>, Span);

    open spec fn view(&self) -> (Seq<char>, Span) {
        (self.content@, self.span)
    }
}

/// A name at `p`, after optional white space, with its span.
pub open spec fn html_ident_at(s: Seq<char>, p: int) -> Parsed<(Seq<char>, Span)> {
    match name_at(s, p) {
        Parsed::Done(n, e) => Parsed::Done(
            (n, Span { start: skip_ws(s, p) as usize, end: e as usize }),
            e,
        ),
        _ => Parsed::Mismatch,
    }
}

/// A quoted attribute value at `p`, after optional white space, with its span.
pub open spec fn html_strlit_at(s: Seq<char>, p: int) -> Parsed<(Seq<char>, Span)> {
    match value_at(s, p) {
        Parsed::Done(v, e) => Parsed::Done(
            (v, Span { start: skip_ws(s, p) as usize, end: e as usize }),
            e,
        ),
        other => fail_as(other),
    }
}

impl HtmlIdent {
    /// Reads a tag or attribute name, after optional white space; where none
    /// starts, the error is [`ErrorKind::ExpectedTagName`].
    pub fn parse(input: &mut Cursor) -> (r: Result<HtmlIdent, ParseError>)
        ensures
            final(input).text() == old(input).text(),
            required(
                r,
                old(input).pos(),
                final(input).pos(),
                html_ident_at(old(input).text(), old(input).pos()),
                ErrorKind::ExpectedTagName,
            ),
    {
        let p = input.spanner();
        input.skip_whitespace();
        let q = input.spanner();
        input.rewind(p);
        match parse_name(input) {
            Ok(n) => {
                let span = Span { start: q, end: input.position() };
                Ok(HtmlIdent { name: string_of(&n), span })
            },
            Err(f) => Err(commit(f, ErrorKind::ExpectedTagName, p)),
        }
    }
}

impl HtmlStrLit {
    /// Reads a quoted attribute value, after optional white space; where none
    /// starts, the error is [`ErrorKind::ExpectedStringLiteral`].
    pub fn parse(input: &mut Cursor) -> (r: Result<HtmlStrLit, ParseError>)
        ensures
            final(input).text() == old(input).text(),
            required(
                r,
                old(input).pos(),
                final(input).pos(),
                html_strlit_at(old(input).text(), old(input).pos()),
                ErrorKind::ExpectedStringLiteral,
            ),
    {
        let p = input.spanner();
        input.skip_whitespace();
        let q = input.spanner();
        input.rewind(p);
        match parse_value(input) {
            Ok(content) => {
                let span = Span { start: q, end: input.position() };
                Ok(HtmlStrLit { content, span })
            },
            Err(f) => Err(commit(f, ErrorKind::ExpectedStringLiteral, p)),
        }
    }
}

/// A tag that the grammar reads has a name that tags can have.
pub proof fn lemma_parsed_name(s: Seq<char>, p: int, depth: nat)
    requires
        0 <= p <= s.len(),
    ensures
        tag_at(s, p, depth) is Done ==> tag_name(tag_at(s, p, depth)->Done_0.name),
{
    if 0 <= p < s.len() && s[p] == '<' && depth < MAX_DEPTH {
        lemma_run_end(s, p + 1, CharClass::Whitespace);
        let q = skip_ws(s, p + 1);
        if 0 <= q < s.len() && ascii_alnum(s[q]) {
            lemma_run_end(s, q, CharClass::AsciiAlnum);
            let e = run_end(s, q, CharClass::AsciiAlnum);
            let n = s.subrange(q, e);
            assert forall|i: int| 0 <= i < n.len() implies ascii_alnum(#[trigger] n[i]) by {
                assert(n[i] == s[q + i]);
            }
        }
    }
}

impl Tag {
    /// Reads a tag at the cursor, with its children; where no tag starts
    /// there, the error is [`ErrorKind::ExpectedTag`]. The tag read has a
    /// name that tags can have.
    pub fn parse(input: &mut Cursor) -> (r: Result<Tag, ParseError>)
        ensures
            final(input).text() == old(input).text(),
            r is Ok ==> tag_name(r->Ok_0@.name),
            required(
                r,
                old(input).pos(),
                final(input).pos(),
                tag_at(old(input).text(), old(input).pos(), 0),
                ErrorKind::ExpectedTag,
            ),
    {
        let start = input.position();
        proof {
            lemma_parsed_name(input.text(), start as int, 0);
        }
        match parse_tag(input, 0) {
            Ok(t) => Ok(t),
            Err(f) => Err(commit(f, ErrorKind::ExpectedTag, start)),
        }
    }
}

} // verus!
