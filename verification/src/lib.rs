//! Verified core of a small HTTP/1.x server: a one-byte-lookahead cursor
//! over an in-memory byte source, a recursive-descent parser for the
//! request-line / header grammar of RFC 7230 with the path/query syntax of
//! RFC 3986, a flattening step that produces a canonical request value, and
//! a fixed-size chunked reader over a byte source.

pub mod chunked_bufreader;
pub mod flatten;
pub mod grammar;
pub mod parser;
pub mod paths;
pub mod peekable_bufreader;
pub mod response;
pub mod rule;
pub mod serialize;
pub mod strutil;
