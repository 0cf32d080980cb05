//! A response to an HTTP request: a status code and an optional body with its
//! content type.
use vstd::prelude::*;
use vstd::slice::slice_to_vec;
use vstd::utf8::encode_utf8;

verus! {

/// A response: a status code and, unless it has none, a body and its content type.
#[derive(Debug)]
pub struct Response {
    pub code: u16,
    pub body: Option<(String, Vec<u8>)>,
}

/// A response as mathematical values.
pub struct ResponseView {
    pub code: u16,
    pub body: Option<(Seq<char>, Seq<u8>)>,
}

impl View for Response {
    type V = ResponseView;

    open spec fn view(&self) -> ResponseView {
        ResponseView {
            code: self.code,
            body: match self.body {
                Some((t, b)) => Some((t@, b@)),
                None => None,
            },
        }
    }
}

/// The UTF-8 bytes of `s`.
pub(crate) fn utf8_bytes(s: &str) -> (r: Vec<u8>)
    ensures
        r@ == encode_utf8(s@),
{
    slice_to_vec(s.as_bytes())
}

impl Response {
    /// The response of a handler that does not serve a method: code 0 and an
    /// empty HTML body.
    pub fn none() -> (r: Response)
        ensures
            r@.code == 0,
            r@.body == Some(("text/html"@, Seq::<u8>::empty())),
    {
        Response { code: 0, body: Some(("text/html".to_owned(), Vec::new())) }
    }

    /// A success with no body.
    pub fn empty() -> (r: Response)
        ensures
            r@.code == 200,
            r@.body is None,
    {
        Response { code: 200, body: None }
    }

    /// A success whose body is the plain text `text`.
    pub fn text(text: String) -> (r: Response)
        ensures
            r@.code == 200,
            r@.body == Some(("text/plain"@, encode_utf8(text@))),
    {
        let bytes = utf8_bytes(text.as_str());
        Response { code: 200, body: Some(("text/plain".to_owned(), bytes)) }
    }

    /// A success whose body is the HTML text `html`.
    pub fn html(html: String) -> (r: Response)
        ensures
            r@.code == 200,
            r@.body == Some(("text/html"@, encode_utf8(html@))),
    {
        let bytes = utf8_bytes(html.as_str());
        Response { code: 200, body: Some(("text/html".to_owned(), bytes)) }
    }

    /// The response with code 201, its body kept.
    pub fn created(self) -> (r: Response)
        ensures
            r@ == (ResponseView { code: 201, ..self@ }),
    {
        Response { code: 201, ..self }
    }

    /// The response with code 500, its body kept.
    pub fn internal_server_error(self) -> (r: Response)
        ensures
            r@ == (ResponseView { code: 500, ..self@ }),
    {
        Response { code: 500, ..self }
    }

    /// The response with code 404, its body kept.
    pub fn not_found(self) -> (r: Response)
        ensures
            r@ == (ResponseView { code: 404, ..self@ }),
    {
        Response { code: 404, ..self }
    }
}

} // verus!
