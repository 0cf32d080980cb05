use hscript::response::Response;
use hscript::routing::{same_text, Method, Reply, Routes};

#[test]
fn methods_by_name() {
    assert_eq!(Method::from_name("GET"), Method::Get);
    assert_eq!(Method::from_name("POST"), Method::Post);
    assert_eq!(Method::from_name("PUT"), Method::Put);
    assert_eq!(Method::from_name("DELETE"), Method::Delete);
    assert_eq!(Method::from_name("PATCH"), Method::Patch);
    assert_eq!(Method::from_name("HEAD"), Method::Head);
    assert_eq!(Method::from_name("OPTIONS"), Method::Options);
    assert_eq!(Method::from_name("TRACE"), Method::Trace);
    assert_eq!(Method::from_name("CONNECT"), Method::Connect);
    assert_eq!(Method::from_name("get"), Method::Custom);
    assert_eq!(Method::from_name("PURGE"), Method::Custom);
    assert_eq!(Method::from_name(""), Method::Custom);
}

#[test]
fn routes_are_found_by_path() {
    let mut routes = Routes::new();
    assert_eq!(routes.find("/"), None);
    assert_eq!(routes.add("/"), 0);
    assert_eq!(routes.add("/about"), 1);
    assert_eq!(routes.find("/about"), Some(1));
    assert_eq!(routes.find("/"), Some(0));
    assert_eq!(routes.find("/ab"), None);
}

#[test]
fn replies() {
    let r = Reply::not_found();
    assert_eq!((r.status, r.content_type, r.body), (404, None, b"Not Found".to_vec()));
    let r = Reply::internal_error();
    assert_eq!((r.status, r.content_type, r.body), (500, None, b"Internal Server Error".to_vec()));
    let r = Reply::from_response(Response::html("<p></p>".to_string()).created());
    assert_eq!(r.status, 201);
    assert_eq!(r.content_type.as_deref(), Some("text/html"));
    assert_eq!(r.body, b"<p></p>".to_vec());
    let r = Reply::from_response(Response::empty());
    assert_eq!((r.status, r.content_type, r.body), (200, None, Vec::new()));
}

#[test]
fn text_equality() {
    assert!(same_text("abc", "abc"));
    assert!(!same_text("abc", "abd"));
    assert!(!same_text("abc", "ab"));
}
