//! Laws that relate the renderer to the tag parser: a tree that the grammar
//! can express renders to a text that parses back to the same tree.
use vstd::prelude::*;
use crate::chars::{ascii_alnum, same_ignoring_ascii_case, white_space};
use crate::cursor::{in_class, lemma_run_end, lemma_run_end_at, run_end, skip_ws, CharClass};
use crate::error::Parsed;
use crate::html::{
    render_attribute, render_attributes, render_child, render_children, render_tag, tag_name,
    AttributeView, ChildView, Closing, TagView,
};
use crate::markup::{
    attribute_at, attributes_at, children_at, closing_tag_at, name_at, open_tag_end, tag_at,
    value_at, MAX_DEPTH,
};

verus! {

/// `x` stands in `s` from position `p` on.
pub open spec fn occurs_at(s: Seq<char>, p: int, x: Seq<char>) -> bool {
    0 <= p && p + x.len() <= s.len() && forall|i: int| 0 <= i < x.len() ==> s[p + i] == #[trigger] x[i]
}

/// Text that reads back as one text child: not empty, and without `<`.
pub open spec fn plain_text(x: Seq<char>) -> bool {
    x.len() > 0 && forall|i: int| 0 <= i < x.len() ==> #[trigger] x[i] != '<'
}

/// An attribute that reads back: its name is a tag name and its value, if
/// any, holds no `"`.
pub open spec fn attribute_reads_back(a: AttributeView) -> bool {
    tag_name(a.name) && match a.value {
        Some(v) => forall|i: int| 0 <= i < v.len() ==> #[trigger] v[i] != '"',
        None => true,
    }
}

/// A tag, nested `depth` deep, that reads back as itself: names are tag names,
/// attributes read back, it is not implicitly closed, an inline tag has no
/// children, texts are plain and never two in a row, and it nests less than
/// [`MAX_DEPTH`] deep.
pub open spec fn reads_back(t: TagView, depth: nat) -> bool
    decreases t,
{
    &&& depth < MAX_DEPTH
    &&& tag_name(t.name)
    &&& forall|i: int| 0 <= i < t.attributes.len() ==> attribute_reads_back(#[trigger] t.attributes[i])
    &&& t.closing != Closing::Implicit
    &&& (t.closing == Closing::Inline ==> t.children.len() == 0)
    &&& children_read_back(t.children, depth + 1)
}

/// Children, nested `depth` deep, that read back as themselves.
pub open spec fn children_read_back(c: Seq<ChildView>, depth: nat) -> bool
    decreases c,
{
    if c.len() == 0 {
        true
    } else {
        &&& child_reads_back(c[0], depth)
        &&& (c[0] is Text && c.len() > 1 ==> c[1] is Tag)
        &&& children_read_back(c.subrange(1, c.len() as int), depth)
    }
}

/// A child, nested `depth` deep, that reads back as itself.
pub open spec fn child_reads_back(c: ChildView, depth: nat) -> bool
    decreases c,
{
    match c {
        ChildView::Tag(t) => reads_back(t, depth),
        ChildView::Text(x) => plain_text(x),
    }
}

proof fn lemma_occurs_split(s: Seq<char>, p: int, x: Seq<char>, y: Seq<char>)
    requires
        occurs_at(s, p, x + y),
    ensures
        occurs_at(s, p, x),
        occurs_at(s, p + x.len(), y),
{
    assert forall|i: int| 0 <= i < x.len() implies s[p + i] == #[trigger] x[i] by {
        assert((x + y)[i] == x[i]);
    }
    assert forall|i: int| 0 <= i < y.len() implies s[p + x.len() + i] == #[trigger] y[i] by {
        assert((x + y)[x.len() + i] == y[i]);
        assert(s[p + (x.len() + i)] == (x + y)[x.len() + i]);
    }
}

proof fn lemma_alnum_char(c: char)
    requires
        ascii_alnum(c),
    ensures
        !white_space(c),
        c != '<' && c != '>' && c != '/' && c != '=' && c != '"' && c != ' ',
{
}

/// The text of children, taken from the front.
proof fn lemma_render_children_front(c: Seq<ChildView>)
    requires
        c.len() > 0,
    ensures
        render_children(c) == render_child(c[0]) + render_children(c.subrange(1, c.len() as int)),
    decreases c.len(),
{
    let d = c.drop_last();
    if c.len() == 1 {
        assert(d =~= Seq::<ChildView>::empty());
        assert(c.subrange(1, 1) =~= Seq::<ChildView>::empty());
        assert(render_children(d) == Seq::<char>::empty());
        assert(render_children(c) =~= render_child(c[0]) + Seq::<char>::empty());
    } else {
        lemma_render_children_front(d);
        let tail = c.subrange(1, c.len() as int);
        assert(tail.drop_last() =~= d.subrange(1, d.len() as int));
        assert(tail.last() == c.last());
        assert(d[0] == c[0]);
        assert(render_children(c) =~= render_child(c[0]) + render_children(tail));
    }
}

/// The text of attributes, taken from the front.
proof fn lemma_render_attributes_front(a: Seq<AttributeView>)
    requires
        a.len() > 0,
    ensures
        render_attributes(a) == render_attribute(a[0]) + render_attributes(
            a.subrange(1, a.len() as int),
        ),
    decreases a.len(),
{
    let d = a.drop_last();
    if a.len() == 1 {
        assert(d =~= Seq::<AttributeView>::empty());
        assert(a.subrange(1, 1) =~= Seq::<AttributeView>::empty());
        assert(render_attributes(d) == Seq::<char>::empty());
        assert(a.last() == a[0]);
        assert(render_attributes(a) =~= render_attribute(a[0]) + Seq::<char>::empty());
    } else {
        lemma_render_attributes_front(d);
        let tail = a.subrange(1, a.len() as int);
        assert(tail.drop_last() =~= d.subrange(1, d.len() as int));
        assert(tail.last() == a.last());
        assert(d[0] == a[0]);
        assert(render_attributes(a) =~= render_attribute(a[0]) + render_attributes(tail));
    }
}

/// A name that stands in the text, followed by a character that cannot be part
/// of it, reads as that name.
proof fn lemma_name_reads_back(s: Seq<char>, p: int, n: Seq<char>)
    requires
        tag_name(n),
        occurs_at(s, p, n),
        p + n.len() < s.len(),
        !ascii_alnum(s[p + n.len()]),
    ensures
        name_at(s, p) == Parsed::Done(n, p + n.len()),
{
    assert(s[p + 0] == n[0]);
    lemma_alnum_char(n[0]);
    lemma_run_end_at(s, p, p, CharClass::Whitespace);
    assert forall|i: int| p <= i < p + n.len() implies crate::cursor::in_class(
        CharClass::AsciiAlnum,
        #[trigger] s[i],
    ) by {
        assert(s[p + (i - p)] == n[i - p]);
    }
    lemma_run_end_at(s, p, p + n.len(), CharClass::AsciiAlnum);
    assert(s.subrange(p, p + n.len()) =~= n);
}

/// Rendered attributes, followed by the end of an open tag, read back as themselves.
proof fn lemma_attributes_read_back(s: Seq<char>, p: int, a: Seq<AttributeView>)
    requires
        forall|i: int| 0 <= i < a.len() ==> attribute_reads_back(#[trigger] a[i]),
        occurs_at(s, p, render_attributes(a)),
        p + render_attributes(a).len() < s.len(),
        s[p + render_attributes(a).len()] == '>' || (s[p + render_attributes(a).len()] == '/'
            && p + render_attributes(a).len() + 1 < s.len() && s[p + render_attributes(a).len()
            + 1] == '>'),
    ensures
        attributes_at(s, p) == Parsed::Done(a, p + render_attributes(a).len()),
    decreases a.len(),
{
    if a.len() == 0 {
        assert(render_attributes(a) == Seq::<char>::empty());
        lemma_run_end_at(s, p, p, CharClass::Whitespace);
        assert(open_tag_end(s, p));
        assert(a =~= Seq::<AttributeView>::empty());
    } else {
        lemma_render_attributes_front(a);
        let a0 = a[0];
        let rest = a.subrange(1, a.len() as int);
        let r0 = render_attribute(a0);
        let rr = render_attributes(rest);
        let end = p + r0.len() + rr.len();
        assert(attribute_reads_back(a0));
        lemma_occurs_split(s, p, r0, rr);
        assert forall|i: int| 0 <= i < rest.len() implies attribute_reads_back(#[trigger] rest[i]) by {
            assert(rest[i] == a[i + 1]);
        }
        lemma_attributes_read_back(s, p + r0.len(), rest);
        let n = a0.name;
        let e = p + 1 + n.len();
        // the character after the attribute's text
        if rest.len() > 0 {
            lemma_render_attributes_front(rest);
            let r1 = render_attribute(rest[0]);
            lemma_occurs_split(s, p + r0.len(), r1, render_attributes(rest.subrange(1, rest.len() as int)));
            assert(attribute_reads_back(rest[0]));
            assert(s[p + r0.len() + 0] == r1[0]);
            assert(s[p + r0.len() + 1] == r1[1]);
            assert(r1[1] == rest[0].name[0]);
            lemma_alnum_char(rest[0].name[0]);
        }
        assert(s[p + 0] == r0[0]);
        assert(s[p + 1] == r0[1]);
        assert(r0[1] == n[0]);
        lemma_alnum_char(n[0]);
        lemma_run_end_at(s, p, p + 1, CharClass::Whitespace);
        assert(skip_ws(s, p) == p + 1);
        assert(!open_tag_end(s, p + 1));
        assert forall|i: int| 0 <= i < n.len() implies s[p + 1 + i] == #[trigger] n[i] by {
            assert(s[p + (1 + i)] == r0[1 + i]);
        }
        match a0.value {
            Some(v) => {
                assert(s[p + (1 + n.len())] == r0[(1 + n.len()) as int]);
                assert(r0[(1 + n.len()) as int] == '=');
                lemma_name_reads_back(s, p + 1, n);
                lemma_run_end_at(s, e, e, CharClass::Whitespace);
                assert(s[p + (2 + n.len())] == r0[(2 + n.len()) as int]);
                lemma_run_end_at(s, e + 1, e + 1, CharClass::Whitespace);
                assert forall|i: int| e + 2 <= i < e + 2 + v.len() implies crate::cursor::in_class(
                    CharClass::Not('"'),
                    #[trigger] s[i],
                ) by {
                    assert(s[p + (i - p)] == r0[i - p]);
                    assert(r0[i - p] == v[i - e - 2]);
                }
                assert(s[p + (3 + n.len() + v.len())] == r0[(3 + n.len() + v.len()) as int]);
                lemma_run_end_at(s, e + 2, e + 2 + v.len(), CharClass::Not('"'));
                assert forall|i: int| 0 <= i < v.len() implies #[trigger] s.subrange(
                    e + 2,
                    e + 2 + v.len(),
                )[i] == v[i] by {
                    assert(s[p + (3 + n.len() + i)] == r0[(3 + n.len() + i) as int]);
                }
                assert(s.subrange(e + 2, e + 2 + v.len()) =~= v);
                assert(value_at(s, e + 1) == Parsed::Done(v, e + 3 + v.len()));
                assert(attribute_at(s, p + 1) == Parsed::Done(a0, p + r0.len()));
            },
            None => {
                lemma_name_reads_back(s, p + 1, n);
                if rest.len() > 0 {
                    lemma_run_end_at(s, e, e + 1, CharClass::Whitespace);
                } else {
                    lemma_run_end_at(s, e, e, CharClass::Whitespace);
                }
                assert(attribute_at(s, p + 1) == Parsed::Done(a0, p + r0.len()));
            },
        }
        assert(seq![a0] + rest =~= a);
    }
}

/// A tag, nested `depth` deep, whose text parses: names are tag names,
/// attribute values hold no `"`, it is not implicitly closed, the texts among
/// the children it renders hold no `<`, and it nests less than [`MAX_DEPTH`] deep.
pub open spec fn parses_back(t: TagView, depth: nat) -> bool
    decreases t,
{
    &&& depth < MAX_DEPTH
    &&& tag_name(t.name)
    &&& forall|i: int| 0 <= i < t.attributes.len() ==> attribute_reads_back(#[trigger] t.attributes[i])
    &&& t.closing != Closing::Implicit
    &&& (t.closing == Closing::Explicit ==> children_parse_back(t.children, depth + 1))
}

/// Children, nested `depth` deep, whose text parses.
pub open spec fn children_parse_back(c: Seq<ChildView>, depth: nat) -> bool
    decreases c,
{
    if c.len() == 0 {
        true
    } else {
        &&& child_parses_back(c[0], depth)
        &&& children_parse_back(c.subrange(1, c.len() as int), depth)
    }
}

/// A child, nested `depth` deep, whose text parses.
pub open spec fn child_parses_back(c: ChildView, depth: nat) -> bool
    decreases c,
{
    match c {
        ChildView::Tag(t) => parses_back(t, depth),
        ChildView::Text(x) => forall|i: int| 0 <= i < x.len() ==> #[trigger] x[i] != '<',
    }
}

/// The tag that the text of `t` parses to: an inline tag loses its children,
/// empty texts go, and texts next to each other become one.
pub open spec fn normalize(t: TagView) -> TagView
    decreases t,
{
    TagView {
        children: if t.closing == Closing::Inline {
            Seq::empty()
        } else {
            normalize_children(t.children)
        },
        ..t
    }
}

/// The children that the text of `c` parses to.
pub open spec fn normalize_children(c: Seq<ChildView>) -> Seq<ChildView>
    decreases c,
{
    if c.len() == 0 {
        Seq::empty()
    } else {
        let rest = normalize_children(c.subrange(1, c.len() as int));
        match c[0] {
            ChildView::Tag(t) => seq![ChildView::Tag(normalize(t))] + rest,
            ChildView::Text(x) => {
                if x.len() == 0 {
                    rest
                } else if rest.len() > 0 && rest[0] is Text {
                    seq![ChildView::Text(x + rest[0]->Text_0)] + rest.subrange(1, rest.len() as int)
                } else {
                    seq![ChildView::Text(x)] + rest
                }
            },
        }
    }
}

proof fn lemma_run_end_skip(s: Seq<char>, p: int, q: int, k: CharClass)
    requires
        0 <= p <= q <= s.len(),
        forall|i: int| p <= i < q ==> in_class(k, #[trigger] s[i]),
    ensures
        run_end(s, p, k) == run_end(s, q, k),
    decreases q - p,
{
    if p < q {
        lemma_run_end_skip(s, p + 1, q, k);
    }
}

/// A rendered tag, nested `depth` deep, parses to its normal form.
proof fn lemma_tag_parses_back(s: Seq<char>, p: int, t: TagView, depth: nat)
    requires
        parses_back(t, depth),
        occurs_at(s, p, render_tag(t)),
    ensures
        tag_at(s, p, depth) == Parsed::Done(normalize(t), p + render_tag(t).len()),
    decreases t,
{
    let n = t.name;
    let ra = render_attributes(t.attributes);
    let rc = render_children(t.children);
    let closing = seq!['<', '/'] + n + seq!['>'];
    let tail = match t.closing {
        Closing::Inline => seq!['/', '>'],
        Closing::Explicit => seq!['>'] + rc + closing,
        Closing::Implicit => seq!['>'] + rc,
    };
    assert(render_tag(t) =~= seq!['<'] + n + ra + tail);
    lemma_occurs_split(s, p, seq!['<'] + n + ra, tail);
    lemma_occurs_split(s, p, seq!['<'] + n, ra);
    lemma_occurs_split(s, p, seq!['<'], n);
    let e = p + 1 + n.len();
    let q = e + ra.len();
    assert(seq!['<'][0] == '<');
    assert(s[p + 0] == '<');
    assert(s[q + 0] == tail[0]);
    if t.attributes.len() > 0 {
        lemma_render_attributes_front(t.attributes);
        assert(s[e + 0] == ra[0]);
    } else {
        assert(ra == Seq::<char>::empty());
    }
    lemma_name_reads_back(s, p + 1, n);
    if t.closing == Closing::Inline {
        assert(s[q + 1] == tail[1]);
        lemma_attributes_read_back(s, e, t.attributes);
    } else {
        lemma_attributes_read_back(s, e, t.attributes);
        assert(tail =~= seq!['>'] + (rc + closing));
        lemma_occurs_split(s, q, seq!['>'], rc + closing);
        lemma_children_parse_back(s, q + 1, t.children, n, depth);
    }
}

/// Rendered children of a tag named `n`, nested `depth` deep, followed by that
/// tag's closing tag, parse to their normal form.
proof fn lemma_children_parse_back(
    s: Seq<char>,
    p: int,
    c: Seq<ChildView>,
    n: Seq<char>,
    depth: nat,
)
    requires
        tag_name(n),
        children_parse_back(c, depth + 1),
        occurs_at(s, p, render_children(c) + (seq!['<', '/'] + n + seq!['>'])),
    ensures
        children_at(s, p, n, depth) == Parsed::Done(
            (normalize_children(c), Closing::Explicit),
            p + render_children(c).len() + n.len() + 3,
        ),
    decreases c,
{
    let closing = seq!['<', '/'] + n + seq!['>'];
    let rc = render_children(c);
    lemma_occurs_split(s, p, rc, closing);
    if c.len() == 0 {
        assert(rc == Seq::<char>::empty());
        assert(s[p + 0] == closing[0]);
        assert(s[p + 1] == closing[1]);
        lemma_occurs_split(s, p, seq!['<', '/'] + n, seq!['>']);
        lemma_occurs_split(s, p, seq!['<', '/'], n);
        assert(seq!['>'][0] == '>');
        assert(s[p + 2 + n.len() + 0] == '>');
        lemma_name_reads_back(s, p + 2, n);
        lemma_run_end_at(s, p + 2 + n.len(), p + 2 + n.len(), CharClass::Whitespace);
        assert(same_ignoring_ascii_case(n, n));
        assert(closing_tag_at(s, p) == Parsed::Done(n, p + n.len() + 3));
    } else {
        lemma_render_children_front(c);
        let c0 = c[0];
        let rest = c.subrange(1, c.len() as int);
        let r0 = render_child(c0);
        let rr = render_children(rest);
        let nrest = normalize_children(rest);
        assert(r0 + rr + closing =~= r0 + (rr + closing));
        lemma_occurs_split(s, p, r0, rr + closing);
        assert(child_parses_back(c0, depth + 1));
        let q = p + r0.len();
        lemma_children_parse_back(s, q, rest, n, depth);
        let end = q + rr.len() + n.len() + 3;
        match c0 {
            ChildView::Text(x) => {
                if x.len() == 0 {
                    assert(q == p);
                } else {
                    assert(s[p + 0] == x[0]);
                    assert forall|i: int| p <= i < q implies in_class(
                        CharClass::Not('<'),
                        #[trigger] s[i],
                    ) by {
                        assert(s[p + (i - p)] == x[i - p]);
                    }
                    lemma_run_end_skip(s, p, q, CharClass::Not('<'));
                    lemma_run_end(s, q, CharClass::Not('<'));
                    assert(q < s.len());
                    if s[q] == '<' {
                        lemma_run_end_at(s, q, q, CharClass::Not('<'));
                        assert(run_end(s, p, CharClass::Not('<')) == q);
                        assert(s.subrange(p, q) =~= x);
                        // what follows is a closing tag or a tag: no text comes first
                        assert(nrest.len() == 0 || nrest[0] is Tag) by {
                            if closing_tag_at(s, q) is Mismatch {
                                if let Parsed::Done(t1, e1) = tag_at(s, q, depth + 1) {
                                    if q < e1 <= s.len() {
                                        assert(nrest[0] == ChildView::Tag(t1));
                                    }
                                }
                            }
                        }
                        assert(normalize_children(c) == seq![ChildView::Text(x)] + nrest);
                    } else {
                        let e1 = run_end(s, q, CharClass::Not('<'));
                        assert(closing_tag_at(s, q) is Mismatch);
                        let y = s.subrange(q, e1);
                        let later = children_at(s, e1, n, depth);
                        assert(children_at(s, q, n, depth) == prepend_child_text(y, later));
                        assert(later is Done);
                        let cs = later->Done_0.0;
                        assert(nrest =~= seq![ChildView::Text(y)] + cs);
                        assert(nrest[0] == ChildView::Text(y));
                        assert(nrest.subrange(1, nrest.len() as int) =~= cs);
                        assert(s.subrange(p, e1) =~= x + y);
                    }
                }
            },
            ChildView::Tag(t0) => {
                let rt = render_tag(t0);
                assert(rt =~= seq!['<'] + t0.name + render_attributes(t0.attributes) + match t0.closing {
                    Closing::Inline => seq!['/', '>'],
                    Closing::Explicit => seq!['>'] + render_children(t0.children) + seq!['<', '/'] + t0.name + seq!['>'],
                    Closing::Implicit => seq!['>'] + render_children(t0.children),
                });
                assert(s[p + 0] == rt[0]);
                assert(rt[0] == '<');
                assert(s[p + 1] == rt[1]);
                assert(rt[1] == t0.name[0]);
                lemma_alnum_char(t0.name[0]);
                lemma_tag_parses_back(s, p, t0, depth + 1);
            },
        }
    }
}

/// `r` with a text child `y` put before the children it yields.
spec fn prepend_child_text(y: Seq<char>, r: Parsed<(Seq<ChildView>, Closing)>) -> Parsed<
    (Seq<ChildView>, Closing),
> {
    crate::markup::prepend_child(ChildView::Text(y), r)
}

/// Normalizing does not change the text.
proof fn lemma_normalize_renders_same(t: TagView)
    ensures
        render_tag(normalize(t)) == render_tag(t),
    decreases t,
{
    if t.closing != Closing::Inline {
        lemma_normalize_children_renders_same(t.children);
    }
    assert(render_tag(normalize(t)) =~= render_tag(t));
}

/// Normalizing children does not change their text.
proof fn lemma_normalize_children_renders_same(c: Seq<ChildView>)
    ensures
        render_children(normalize_children(c)) == render_children(c),
    decreases c,
{
    if c.len() > 0 {
        let rest = c.subrange(1, c.len() as int);
        let nrest = normalize_children(rest);
        lemma_normalize_children_renders_same(rest);
        lemma_render_children_front(c);
        match c[0] {
            ChildView::Tag(t) => {
                lemma_normalize_renders_same(t);
                let nc = normalize_children(c);
                lemma_render_children_front(nc);
                assert(nc.subrange(1, nc.len() as int) =~= nrest);
            },
            ChildView::Text(x) => {
                let nc = normalize_children(c);
                if x.len() == 0 {
                    assert(render_children(c) =~= render_children(rest));
                } else if nrest.len() > 0 && nrest[0] is Text {
                    lemma_render_children_front(nrest);
                    lemma_render_children_front(nc);
                    assert(nc.subrange(1, nc.len() as int) =~= nrest.subrange(1, nrest.len() as int));
                    assert(render_children(nc) =~= render_children(c));
                } else {
                    lemma_render_children_front(nc);
                    assert(nc.subrange(1, nc.len() as int) =~= nrest);
                }
            },
        }
    }
}

/// Rendering a tag whose text parses, parsing the text and rendering the
/// result gives the text of the first rendering.
pub proof fn lemma_render_parse_render(t: TagView)
    requires
        parses_back(t, 0),
    ensures
        tag_at(render_tag(t), 0, 0) is Done,
        render_tag(tag_at(render_tag(t), 0, 0)->Done_0) == render_tag(t),
{
    let s = render_tag(t);
    assert(occurs_at(s, 0, s));
    lemma_tag_parses_back(s, 0, t, 0);
    lemma_normalize_renders_same(t);
}

/// A tag that reads back is a tag whose text parses, and is its own normal form.
proof fn lemma_reads_back_normal(t: TagView, depth: nat)
    requires
        reads_back(t, depth),
    ensures
        parses_back(t, depth),
        normalize(t) == t,
    decreases t,
{
    lemma_children_read_back_normal(t.children, depth + 1);
    if t.closing == Closing::Inline {
        assert(t.children =~= Seq::<ChildView>::empty());
    }
}

/// Children that read back are children whose text parses, and are their own
/// normal form.
proof fn lemma_children_read_back_normal(c: Seq<ChildView>, depth: nat)
    requires
        children_read_back(c, depth),
    ensures
        children_parse_back(c, depth),
        normalize_children(c) == c,
    decreases c,
{
    if c.len() == 0 {
        assert(normalize_children(c) =~= c);
    } else {
        let rest = c.subrange(1, c.len() as int);
        lemma_children_read_back_normal(rest, depth);
        assert(child_reads_back(c[0], depth));
        match c[0] {
            ChildView::Tag(t) => {
                lemma_reads_back_normal(t, depth);
            },
            ChildView::Text(x) => {
                assert(x.len() > 0);
                if rest.len() > 0 {
                    assert(rest[0] == c[1]);
                    assert(rest[0] is Tag);
                }
                assert(normalize_children(c) == seq![c[0]] + rest);
            },
        }
        assert(child_parses_back(c[0], depth));
        assert(normalize_children(c) =~= c);
    }
}

/// Rendering a tag that reads back and parsing the text gives the tag again,
/// and the parse consumes the whole text.
pub proof fn lemma_round_trip(t: TagView)
    requires
        reads_back(t, 0),
    ensures
        tag_at(render_tag(t), 0, 0) == Parsed::Done(t, render_tag(t).len() as int),
{
    let s = render_tag(t);
    assert(occurs_at(s, 0, s));
    lemma_reads_back_normal(t, 0);
    lemma_tag_parses_back(s, 0, t, 0);
}

} // verus!
