//! The parse tree produced by one run of the grammar parser, and the method
//! tokens it recognises.  All of it is transient: the flattener consumes it
//! and produces the canonical request.

use vstd::prelude::*;
use crate::grammar::{method_of, OriginFormV, RequestLineV, MessageV};
use crate::strutil::str_eq;

verus! {

/// A whole message: the request line and the header fields in order.
pub struct HTTPMessage {
    pub request_line: RequestLine,
    pub header_fields: Vec<HeaderField>,
}

impl View for HTTPMessage {
    type V = MessageV;

    open spec fn view(&self) -> MessageV {
        MessageV {
            line: self.request_line@,
            headers: self.header_fields@.map_values(|h: HeaderField| h@),
        }
    }
}

/// One header field: a name and its already-flattened value.
pub struct HeaderField {
    pub name: FieldName,
    pub value: FieldValue,
}

impl View for HeaderField {
    type V = (Seq<char>, Seq<u8>);

    open spec fn view(&self) -> (Seq<char>, Seq<u8>) {
        (self.name@, self.value@)
    }
}

/// A header field name: a logical token.
pub struct FieldName {
    pub lexeme: String,
}

impl View for FieldName {
    type V = Seq<char>;

    open spec fn view(&self) -> Seq<char> {
        self.lexeme@
    }
}

/// A header field value: decoded content bytes, internal whitespace runs
/// already collapsed to a single space.
pub struct FieldValue {
    pub content: Vec<u8>,
}

impl View for FieldValue {
    type V = Seq<u8>;

    open spec fn view(&self) -> Seq<u8> {
        self.content@
    }
}

/// One field-content unit: a character, optionally paired with a second one
/// that followed a whitespace run.
pub struct FieldContent {
    pub first_char: u8,
    pub second_char: Option<u8>,
}

/// The request line: method, origin-form target, version.
pub struct RequestLine {
    pub method: Method,
    pub request_target: OriginForm,
    pub http_version: HTTPVersion,
}

impl View for RequestLine {
    type V = RequestLineV;

    open spec fn view(&self) -> RequestLineV {
        RequestLineV {
            method: self.method,
            target: self.request_target@,
            major: self.http_version.major,
            minor: self.http_version.minor,
        }
    }
}

/// The eight recognised request methods.
#[derive(Debug, Clone, Copy, PartialEq, Eq, Structural)]
pub enum Method {
    GET,
    HEAD,
    POST,
    PUT,
    DELETE,
    CONNECT,
    OPTIONS,
    TRACE,
}

impl Method {
    /// The method a token names, if it is one of the eight recognised
    /// tokens; any other token, however well-formed, is no method.
    pub fn from_string(string: &str) -> (r: Option<Method>)
        ensures
            r == method_of(string@),
    {
        proof {
            reveal_strlit("GET");
            reveal_strlit("HEAD");
            reveal_strlit("POST");
            reveal_strlit("PUT");
            reveal_strlit("DELETE");
            reveal_strlit("CONNECT");
            reveal_strlit("OPTIONS");
            reveal_strlit("TRACE");
            assert("GET"@ =~= seq!['G', 'E', 'T']);
            assert("HEAD"@ =~= seq!['H', 'E', 'A', 'D']);
            assert("POST"@ =~= seq!['P', 'O', 'S', 'T']);
            assert("PUT"@ =~= seq!['P', 'U', 'T']);
            assert("DELETE"@ =~= seq!['D', 'E', 'L', 'E', 'T', 'E']);
            assert("CONNECT"@ =~= seq!['C', 'O', 'N', 'N', 'E', 'C', 'T']);
            assert("OPTIONS"@ =~= seq!['O', 'P', 'T', 'I', 'O', 'N', 'S']);
            assert("TRACE"@ =~= seq!['T', 'R', 'A', 'C', 'E']);
        }
        if str_eq(string, "GET") {
            Some(Method::GET)
        } else if str_eq(string, "HEAD") {
            Some(Method::HEAD)
        } else if str_eq(string, "POST") {
            Some(Method::POST)
        } else if str_eq(string, "PUT") {
            Some(Method::PUT)
        } else if str_eq(string, "DELETE") {
            Some(Method::DELETE)
        } else if str_eq(string, "CONNECT") {
            Some(Method::CONNECT)
        } else if str_eq(string, "OPTIONS") {
            Some(Method::OPTIONS)
        } else if str_eq(string, "TRACE") {
            Some(Method::TRACE)
        } else {
            None
        }
    }
}

/// An origin-form request target: an absolute path and an optional query.
pub struct OriginForm {
    pub absolute_path: AbsolutePath,
    pub query: Option<Query>,
}

impl View for OriginForm {
    type V = OriginFormV;

    open spec fn view(&self) -> OriginFormV {
        OriginFormV {
            path: self.absolute_path@,
            query: match self.query {
                Some(q) => Some(q@),
                None => None,
            },
        }
    }
}

/// An HTTP version: single-digit major and minor.
pub struct HTTPVersion {
    pub major: u32,
    pub minor: u32,
}

/// An absolute path: its decoded segments in order.
pub struct AbsolutePath {
    pub segments: Vec<Segment>,
}

impl View for AbsolutePath {
    type V = Seq<Seq<char>>;

    open spec fn view(&self) -> Seq<Seq<char>> {
        self.segments@.map_values(|seg: Segment| seg@)
    }
}

/// A query: decoded and stored undivided.
pub struct Query {
    pub lexeme: String,
}

impl View for Query {
    type V = Seq<char>;

    open spec fn view(&self) -> Seq<char> {
        self.lexeme@
    }
}

/// One decoded path segment.
pub struct Segment {
    pub lexeme: String,
}

impl View for Segment {
    type V = Seq<char>;

    open spec fn view(&self) -> Seq<char> {
        self.lexeme@
    }
}

} // verus!
