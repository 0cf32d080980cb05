//! The document tree: tags with attributes and children, a builder for it, and
//! its rendering as HTML text.
use vstd::prelude::*;
use crate::chars::{ascii_alnum, is_ascii_alnum, push_str};

verus! {

/// How a tag ends.
#[derive(Clone, Copy, Debug, PartialEq, Eq, Structural)]
pub enum Closing {
    /// Closed in its open tag (`<img/>`); it has no children.
    Inline,
    /// Ended by a closing tag of another name, which it leaves to an enclosing tag.
    Implicit,
    /// Ended by a closing tag of its own name.
    Explicit,
}

/// An attribute: a name and, unless it stands bare, a value.
#[derive(Debug)]
pub struct Attribute {
    pub name: String,
    pub value: Option<String>,
}

/// A tag's child: a nested tag or a run of text.
#[derive(Debug)]
pub enum Child {
    Tag(Tag),
    Text(String),
}

/// A tag: its name, its attributes in order, its children in order, and how it ends.
#[derive(Debug)]
pub struct Tag {
    pub name: String,
    pub attributes: Vec<Attribute>,
    pub children: Vec<Child>,
    pub closing: Closing,
}

/// An attribute as mathematical values.
pub struct AttributeView {
    pub name: Seq<char>,
    pub value: Option<Seq<char>>,
}

/// A child as mathematical values.
pub enum ChildView {
    Tag(TagView),
    Text(Seq<char>),
}

/// A tag as mathematical values.
pub struct TagView {
    pub name: Seq<char>,
    pub attributes: Seq<AttributeView>,
    pub children: Seq<ChildView>,
    pub closing: Closing,
}

impl View for Attribute {
    type V = AttributeView;

    open spec fn view(&self) -> AttributeView {
        AttributeView {
            name: self.name@,
            value: match self.value {
                Some(v) => Some(v@),
                None => None,
            },
        }
    }
}

/// The views of the attributes `a`.
pub open spec fn attributes_view(a: Seq<Attribute>) -> Seq<AttributeView> {
    a.map_values(|x: Attribute| x@)
}

/// The view of a tag.
pub open spec fn tag_view(t: Tag) -> TagView
    decreases t,
{
    TagView {
        name: t.name@,
        attributes: attributes_view(t.attributes@),
        children: children_view(t.children@),
        closing: t.closing,
    }
}

/// The view of a child.
pub open spec fn child_view(c: Child) -> ChildView
    decreases c,
{
    match c {
        Child::Tag(t) => ChildView::Tag(tag_view(t)),
        Child::Text(s) => ChildView::Text(s@),
    }
}

/// The views of the children `c`, in order.
pub open spec fn children_view(c: Seq<Child>) -> Seq<ChildView>
    decreases c,
{
    if c.len() == 0 {
        Seq::empty()
    } else {
        children_view(c.drop_last()).push(child_view(c.last()))
    }
}

impl View for Tag {
    type V = TagView;

    open spec fn view(&self) -> TagView {
        tag_view(*self)
    }
}

impl View for Child {
    type V = ChildView;

    open spec fn view(&self) -> ChildView {
        child_view(*self)
    }
}

/// A name that tags and attributes can have: one or more ASCII letters and digits.
pub open spec fn tag_name(n: Seq<char>) -> bool {
    n.len() > 0 && forall|i: int| 0 <= i < n.len() ==> ascii_alnum(#[trigger] n[i])
}

/// Whether `name` is a name that tags and attributes can have.
pub fn is_tag_name(name: &str) -> (r: bool)
    ensures
        r == tag_name(name@),
{
    let n = crate::chars::chars_of(name);
    if n.len() == 0 {
        return false;
    }
    let mut i: usize = 0;
    while i < n.len()
        invariant
            n@ == name@,
            i <= n.len(),
            forall|j: int| 0 <= j < i ==> ascii_alnum(#[trigger] n@[j]),
        decreases n.len() - i,
    {
        if !is_ascii_alnum(n[i]) {
            return false;
        }
        i = i + 1;
    }
    true
}

/// The text of one attribute: ` name` or ` name="value"`.
pub open spec fn render_attribute(a: AttributeView) -> Seq<char> {
    match a.value {
        Some(v) => seq![' '] + a.name + seq!['=', '"'] + v + seq!['"'],
        None => seq![' '] + a.name,
    }
}

/// The text of attributes, in order.
pub open spec fn render_attributes(a: Seq<AttributeView>) -> Seq<char>
    decreases a.len(),
{
    if a.len() == 0 {
        Seq::empty()
    } else {
        render_attributes(a.drop_last()) + render_attribute(a.last())
    }
}

/// The text of a tag: its open tag, and then as its closing says, `/>`, or its
/// children and a closing tag, or its children alone.
pub open spec fn render_tag(t: TagView) -> Seq<char>
    decreases t,
{
    seq!['<'] + t.name + render_attributes(t.attributes) + match t.closing {
        Closing::Inline => seq!['/', '>'],
        Closing::Explicit => seq!['>'] + render_children(t.children) + seq!['<', '/'] + t.name
            + seq!['>'],
        Closing::Implicit => seq!['>'] + render_children(t.children),
    }
}

/// The text of a child: a tag's text, or the text itself.
pub open spec fn render_child(c: ChildView) -> Seq<char>
    decreases c,
{
    match c {
        ChildView::Tag(t) => render_tag(t),
        ChildView::Text(s) => s,
    }
}

/// The text of children, in order.
pub open spec fn render_children(c: Seq<ChildView>) -> Seq<char>
    decreases c,
{
    if c.len() == 0 {
        Seq::empty()
    } else {
        render_children(c.drop_last()) + render_child(c.last())
    }
}

/// The view of `a` after a push is the old view and the view of what was pushed.
pub proof fn lemma_attributes_view_push(a: Seq<Attribute>, x: Attribute)
    ensures
        attributes_view(a.push(x)) == attributes_view(a).push(x@),
{
    assert(attributes_view(a.push(x)) =~= attributes_view(a).push(x@));
}

/// The view of `c` after a push is the old view and the view of what was pushed.
pub proof fn lemma_children_view_push(c: Seq<Child>, x: Child)
    ensures
        children_view(c.push(x)) == children_view(c).push(child_view(x)),
{
    assert(c.push(x).drop_last() =~= c);
}

impl From<Tag> for Child {
    fn from(value: Tag) -> (r: Child) {
        Child::Tag(value)
    }
}

impl vstd::std_specs::convert::FromSpecImpl<Tag> for Child {
    open spec fn obeys_from_spec() -> bool {
        true
    }

    open spec fn from_spec(v: Tag) -> Child {
        Child::Tag(v)
    }
}

impl Child {
    /// The child's HTML text: a tag's text, or the text itself.
    pub fn render(&self) -> (r: String)
        ensures
            r@ == render_child(self@),
    {
        let mut out = String::new();
        self.render_into(&mut out);
        proof {
            assert(Seq::<char>::empty() + render_child(self@) =~= render_child(self@));
        }
        out
    }

    /// A text child.
    pub fn text(s: &str) -> (r: Child)
        ensures
            r@ == ChildView::Text(s@),
    {
        Child::Text(s.to_owned())
    }

    fn render_into(&self, out: &mut String)
        ensures
            final(out)@ == old(out)@ + render_child(self@),
        decreases self,
    {
        match self {
            Child::Tag(t) => t.render_into(out),
            Child::Text(s) => push_str(out, s.as_str()),
        }
    }
}

impl Tag {
    /// A tag named `name`, with no attributes and no children, ended by a
    /// closing tag of its own.
    pub fn new(name: &str) -> (r: Tag)
        requires
            tag_name(name@),
        ensures
            r@ == (TagView {
                name: name@,
                attributes: Seq::empty(),
                children: Seq::empty(),
                closing: Closing::Explicit,
            }),
    {
        let r = Tag {
            name: name.to_owned(),
            attributes: Vec::new(),
            children: Vec::new(),
            closing: Closing::Explicit,
        };
        proof {
            assert(attributes_view(r.attributes@) =~= Seq::empty());
        }
        r
    }

    /// The tag with the attribute `name="value"` added after the others.
    pub fn attr(self, name: &str, value: &str) -> (r: Tag)
        ensures
            r@ == (TagView {
                attributes: self@.attributes.push(
                    AttributeView { name: name@, value: Some(value@) },
                ),
                ..self@
            }),
    {
        let mut t = self;
        let a = Attribute { name: name.to_owned(), value: Some(value.to_owned()) };
        proof {
            lemma_attributes_view_push(t.attributes@, a);
        }
        t.attributes.push(a);
        t
    }

    /// The tag with `child` added after its other children.
    pub fn child(self, child: Child) -> (r: Tag)
        ensures
            r@ == (TagView { children: self@.children.push(child@), ..self@ }),
    {
        let mut t = self;
        proof {
            lemma_children_view_push(t.children@, child);
        }
        t.children.push(child);
        t
    }

    /// The tag's HTML text.
    pub fn render(&self) -> (r: String)
        ensures
            r@ == render_tag(self@),
    {
        let mut out = String::new();
        self.render_into(&mut out);
        proof {
            assert(Seq::<char>::empty() + render_tag(self@) =~= render_tag(self@));
        }
        out
    }

    fn render_into(&self, out: &mut String)
        ensures
            final(out)@ == old(out)@ + render_tag(self@),
        decreases self,
    {
        let ghost start = out@;
        let ghost v = self@;
        proof {
            reveal_strlit("<");
            reveal_strlit(" ");
            reveal_strlit("=\"");
            reveal_strlit("\"");
            reveal_strlit("/>");
            reveal_strlit(">");
            reveal_strlit("</");
        }
        push_str(out, "<");
        push_str(out, self.name.as_str());
        proof {
            assert(attributes_view(self.attributes@.take(0)) =~= Seq::empty());
            assert(out@ =~= start + seq!['<'] + v.name + render_attributes(Seq::empty()));
        }
        let mut i: usize = 0;
        while i < self.attributes.len()
            invariant
                i <= self.attributes.len(),
                v == self@,
                out@ == start + seq!['<'] + v.name + render_attributes(
                    attributes_view(self.attributes@.take(i as int)),
                ),
            decreases self.attributes.len() - i,
        {
            let a = &self.attributes[i];
            let ghost before = out@;
            proof {
                reveal_strlit(" ");
                reveal_strlit("=\"");
                reveal_strlit("\"");
            }
            push_str(out, " ");
            push_str(out, a.name.as_str());
            match &a.value {
                Some(x) => {
                    push_str(out, "=\"");
                    push_str(out, x.as_str());
                    push_str(out, "\"");
                    proof {
                        assert(a@.value == Some(x@));
                        assert(out@ =~= before + render_attribute(a@));
                    }
                },
                None => {
                    proof {
                        assert(out@ =~= before + render_attribute(a@));
                    }
                },
            }
            proof {
                let tk = self.attributes@.take(i + 1);
                assert(tk.drop_last() =~= self.attributes@.take(i as int));
                assert(attributes_view(tk).drop_last() =~= attributes_view(tk.drop_last()));
                assert(attributes_view(tk).last() == a@);
            }
            i = i + 1;
        }
        proof {
            assert(self.attributes@.take(self.attributes.len() as int) =~= self.attributes@);
        }
        let ghost open_tag = out@;
        proof {
            reveal_strlit("/>");
            reveal_strlit(">");
        }
        match self.closing {
            Closing::Inline => {
                push_str(out, "/>");
                proof {
                    assert(out@ =~= start + render_tag(v));
                }
            },
            _ => {
                push_str(out, ">");
                proof {
                    assert(self.children@.take(0) =~= Seq::empty());
                    assert(out@ =~= open_tag + seq!['>'] + render_children(
                        children_view(self.children@.take(0)),
                    ));
                }
                let mut j: usize = 0;
                while j < self.children.len()
                    invariant
                        j <= self.children.len(),
                        v == self@,
                        out@ == open_tag + seq!['>'] + render_children(
                            children_view(self.children@.take(j as int)),
                        ),
                    decreases self.children.len() - j,
                {
                    let c = &self.children[j];
                    let ghost before = out@;
                    c.render_into(out);
                    proof {
                        let tk = self.children@.take(j + 1);
                        assert(tk.drop_last() =~= self.children@.take(j as int));
                        assert(tk.last() == *c);
                        let cv = children_view(tk);
                        assert(cv == children_view(tk.drop_last()).push(child_view(*c)));
                        assert(cv.drop_last() =~= children_view(tk.drop_last()));
                        assert(render_children(cv) == render_children(cv.drop_last()) + render_child(cv.last()));
                    }
                    j = j + 1;
                }
                proof {
                    assert(self.children@.take(self.children.len() as int) =~= self.children@);
                }
                proof {
                    reveal_strlit("</");
                    reveal_strlit(">");
                }
                if self.closing == Closing::Explicit {
                    push_str(out, "</");
                    push_str(out, self.name.as_str());
                    push_str(out, ">");
                }
                proof {
                    assert(out@ =~= start + render_tag(v));
                }
            },
        }
    }
}

} // verus!
