//! What a server decides about a request: which route serves its path, which
//! handler method its HTTP method names, and what reply goes back.
use vstd::prelude::*;
use vstd::utf8::encode_utf8;
use crate::chars::chars_of;
use crate::response::{utf8_bytes, Response};

verus! {

/// The handler method that an HTTP method selects.
#[derive(Clone, Copy, Debug, PartialEq, Eq, Structural)]
pub enum Method {
    Get,
    Post,
    Put,
    Delete,
    Patch,
    Head,
    Options,
    Trace,
    Connect,
    /// Any other method, served by the handler's catch-all.
    Custom,
}

/// The handler method that the HTTP method named `name` selects.
pub open spec fn method_of(name: Seq<char>) -> Method {
    if name == seq!['G', 'E', 'T'] {
        Method::Get
    } else if name == seq!['P', 'O', 'S', 'T'] {
        Method::Post
    } else if name == seq!['P', 'U', 'T'] {
        Method::Put
    } else if name == seq!['D', 'E', 'L', 'E', 'T', 'E'] {
        Method::Delete
    } else if name == seq!['P', 'A', 'T', 'C', 'H'] {
        Method::Patch
    } else if name == seq!['H', 'E', 'A', 'D'] {
        Method::Head
    } else if name == seq!['O', 'P', 'T', 'I', 'O', 'N', 'S'] {
        Method::Options
    } else if name == seq!['T', 'R', 'A', 'C', 'E'] {
        Method::Trace
    } else if name == seq!['C', 'O', 'N', 'N', 'E', 'C', 'T'] {
        Method::Connect
    } else {
        Method::Custom
    }
}

/// Whether the characters of `a` are those of `b`.
fn same_chars(a: &Vec<char>, b: &Vec<char>) -> (r: bool)
    ensures
        r == (a@ == b@),
{
    if a.len() != b.len() {
        return false;
    }
    let mut i: usize = 0;
    while i < a.len()
        invariant
            a.len() == b.len(),
            i <= a.len(),
            forall|j: int| 0 <= j < i ==> a@[j] == b@[j],
        decreases a.len() - i,
    {
        if a[i] != b[i] {
            return false;
        }
        i = i + 1;
    }
    assert(a@ =~= b@);
    true
}

/// Whether the text `a` is the text `b`.
pub fn same_text(a: &str, b: &str) -> (r: bool)
    ensures
        r == (a@ == b@),
{
    same_chars(&chars_of(a), &chars_of(b))
}

impl Method {
    /// The handler method that the HTTP method named `name` selects.
    pub fn from_name(name: &str) -> (r: Method)
        ensures
            r == method_of(name@),
    {
        proof {
            reveal_strlit("GET");
            reveal_strlit("POST");
            reveal_strlit("PUT");
            reveal_strlit("DELETE");
            reveal_strlit("PATCH");
            reveal_strlit("HEAD");
            reveal_strlit("OPTIONS");
            reveal_strlit("TRACE");
            reveal_strlit("CONNECT");
            assert("GET"@ =~= seq!['G', 'E', 'T']);
            assert("POST"@ =~= seq!['P', 'O', 'S', 'T']);
            assert("PUT"@ =~= seq!['P', 'U', 'T']);
            assert("DELETE"@ =~= seq!['D', 'E', 'L', 'E', 'T', 'E']);
            assert("PATCH"@ =~= seq!['P', 'A', 'T', 'C', 'H']);
            assert("HEAD"@ =~= seq!['H', 'E', 'A', 'D']);
            assert("OPTIONS"@ =~= seq!['O', 'P', 'T', 'I', 'O', 'N', 'S']);
            assert("TRACE"@ =~= seq!['T', 'R', 'A', 'C', 'E']);
            assert("CONNECT"@ =~= seq!['C', 'O', 'N', 'N', 'E', 'C', 'T']);
        }
        if same_text(name, "GET") {
            Method::Get
        } else if same_text(name, "POST") {
            Method::Post
        } else if same_text(name, "PUT") {
            Method::Put
        } else if same_text(name, "DELETE") {
            Method::Delete
        } else if same_text(name, "PATCH") {
            Method::Patch
        } else if same_text(name, "HEAD") {
            Method::Head
        } else if same_text(name, "OPTIONS") {
            Method::Options
        } else if same_text(name, "TRACE") {
            Method::Trace
        } else if same_text(name, "CONNECT") {
            Method::Connect
        } else {
            Method::Custom
        }
    }
}

/// The paths that routes serve, each at most once, in the order they were added.
pub struct Routes {
    paths: Vec<String>,
}

impl Routes {
    /// The paths, in the order they were added.
    pub closed spec fn paths(&self) -> Seq<Seq<char>> {
        self.paths@.map_values(|p: String| p@)
    }

    /// No routes.
    pub fn new() -> (r: Routes)
        ensures
            r.paths() == Seq::<Seq<char>>::empty(),
    {
        let r = Routes { paths: Vec::new() };
        assert(r.paths() =~= Seq::<Seq<char>>::empty());
        r
    }

    /// The number of the route for `path`, if there is one.
    pub fn find(&self, path: &str) -> (r: Option<usize>)
        ensures
            r is Some ==> r->Some_0 < self.paths().len() && self.paths()[r->Some_0 as int]
                == path@,
            r is None ==> forall|i: int| 0 <= i < self.paths().len() ==> self.paths()[i] != path@,
    {
        let mut i: usize = 0;
        while i < self.paths.len()
            invariant
                i <= self.paths.len(),
                forall|j: int| 0 <= j < i ==> self.paths()[j] != path@,
            decreases self.paths.len() - i,
        {
            if same_text(self.paths[i].as_str(), path) {
                return Some(i);
            }
            i = i + 1;
        }
        None
    }

    /// Adds a route for `path`, which no route serves yet, and returns its number.
    pub fn add(&mut self, path: &str) -> (r: usize)
        requires
            forall|i: int| 0 <= i < old(self).paths().len() ==> old(self).paths()[i] != path@,
        ensures
            final(self).paths() == old(self).paths().push(path@),
            r == old(self).paths().len(),
    {
        let r = self.paths.len();
        self.paths.push(path.to_owned());
        assert(self.paths() =~= old(self).paths().push(path@));
        r
    }
}

/// What goes back to a client: a status, a content type if there is a body,
/// and the body's bytes.
#[derive(Debug)]
pub struct Reply {
    pub status: u16,
    pub content_type: Option<String>,
    pub body: Vec<u8>,
}

impl Reply {
    /// The reply when no route serves the path: 404 and the text `Not Found`.
    pub fn not_found() -> (r: Reply)
        ensures
            r.status == 404,
            r.content_type is None,
            r.body@ == encode_utf8("Not Found"@),
    {
        Reply { status: 404, content_type: None, body: utf8_bytes("Not Found") }
    }

    /// The reply when the handler failed: 500 and the text `Internal Server Error`.
    pub fn internal_error() -> (r: Reply)
        ensures
            r.status == 500,
            r.content_type is None,
            r.body@ == encode_utf8("Internal Server Error"@),
    {
        Reply { status: 500, content_type: None, body: utf8_bytes("Internal Server Error") }
    }

    /// The reply that carries the handler's response: its code, and its body
    /// and content type, or no content type and no bytes.
    pub fn from_response(res: Response) -> (r: Reply)
        ensures
            r.status == res@.code,
            match res@.body {
                Some((t, b)) => r.content_type is Some && r.content_type->Some_0@ == t && r.body@ == b,
                None => r.content_type is None && r.body@ == Seq::<u8>::empty(),
            },
    {
        match res.body {
            Some((t, b)) => Reply { status: res.code, content_type: Some(t), body: b },
            None => Reply { status: res.code, content_type: None, body: Vec::new() },
        }
    }
}

} // verus!
