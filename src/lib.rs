//! A markup-template engine: a parser that turns text holding HTML-like tags,
//! `#name argument` directives and a small expression language into a tree,
//! and a renderer that turns a tree back into HTML text.
//!
//! - [`cursor`]: the scanner that every parser reads through.
//! - [`litstr`]: quoted string literals with their escapes decoded.
//! - [`ident`], [`expr`]: directive names and expressions.
//! - [`html`]: the tree, its builder and its rendering.
//! - [`markup`]: the tag grammar.
//! - [`program`]: a whole source text, directives and tags.
//! - [`round_trip`]: what rendering and parsing promise of each other.
//! - [`response`], [`routing`]: what a server built on the engine decides.
//!
//! Choices the grammar makes: a closing tag ends the open tag of the same name
//! with ASCII case ignored; the end of the input before a tag's closing tag is
//! an error; tags nest at most [`markup::MAX_DEPTH`] deep; attributes keep the
//! order they were written or added in.
pub mod chars;
pub mod cursor;
pub mod error;
pub mod expr;
pub mod html;
pub mod ident;
pub mod litstr;
pub mod markup;
pub mod program;
pub mod response;
pub mod round_trip;
pub mod routing;
