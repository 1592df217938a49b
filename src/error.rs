//! Why a request gets no rendered page, and what the transport makes of it.
use vstd::prelude::*;

verus! {

/// The ways a request can end without a rendered page.
#[derive(Clone, Copy, Debug, PartialEq, Eq, Structural)]
pub enum RequestError {
    /// No source file resolves, or it could not be opened or examined.
    NotFound,
    /// The resolved file is not Markdown: a signal to serve it as it is.
    NotMarkdown,
    /// The file could not be read or is not valid UTF-8.
    DecodingError,
}

/// The HTTP status a rejection maps to; `None` hands the request to the
/// static-file server.
pub fn status_code(e: RequestError) -> (r: Option<u16>)
    ensures
        e == RequestError::NotFound ==> r == Some(404u16),
        e == RequestError::NotMarkdown ==> r is None,
        e == RequestError::DecodingError ==> r == Some(500u16),
{
    match e {
        RequestError::NotFound => Some(404),
        RequestError::NotMarkdown => None,
        RequestError::DecodingError => Some(500),
    }
}

} // verus!
