//! The closed set of response outcomes and their status lines.  The full
//! set is fixed and known (success plus four canned client/server errors),
//! so it is a tagged variant type with one rendering operation, not an
//! open trait.  The canned HTML bodies are the serving layer's concern;
//! the status line is what this core fixes.

use vstd::prelude::*;

verus! {

/// Every response the server can give.
#[derive(Debug, Clone, Copy, PartialEq, Eq, Structural)]
pub enum Response {
    Success,
    BadRequest,
    NotFound,
    NotImplemented,
    InternalServerError,
}

/// The status line each response carries, terminated by the empty line
/// that ends the (header-less) response head.
pub open spec fn status_line_spec(r: Response) -> Seq<char> {
    match r {
        Response::Success => "HTTP/1.1 200 OK\r\n\r\n"@,
        Response::BadRequest => "HTTP/1.1 400 Bad Request\r\n\r\n"@,
        Response::NotFound => "HTTP/1.1 404 Not Found\r\n\r\n"@,
        Response::NotImplemented => "HTTP/1.1 501 Not Implemented\r\n\r\n"@,
        Response::InternalServerError => "HTTP/1.1 500 InternalServerError\r\n\r\n"@,
    }
}

impl Response {
    /// Render the status line of this response.
    pub fn status_line(&self) -> (r: String)
        ensures
            r@ == status_line_spec(*self),
    {
        match self {
            Response::Success => "HTTP/1.1 200 OK\r\n\r\n".to_owned(),
            Response::BadRequest => "HTTP/1.1 400 Bad Request\r\n\r\n".to_owned(),
            Response::NotFound => "HTTP/1.1 404 Not Found\r\n\r\n".to_owned(),
            Response::NotImplemented => "HTTP/1.1 501 Not Implemented\r\n\r\n".to_owned(),
            Response::InternalServerError => "HTTP/1.1 500 InternalServerError\r\n\r\n".to_owned(),
        }
    }
}

} // verus!
