//! A small, verified HTTP/1.1 server engine.
//!
//! The library turns the header lines read from a connection into a
//! structured request, decodes URL-encoded and multipart form bodies into a
//! key/value parameter map, routes a (method, path) pair to a registered
//! handler by path template, and enforces an at-most-once response
//! discipline on each request handle.  All socket work (reading lines and
//! body bytes, writing responses) is left to the embedding program, which
//! hands the library plain values.

use vstd::prelude::*;

pub mod http;
pub mod params;
pub mod router;
pub mod text;

verus! {

/// One entry of a request's header section: either a text line that was
/// decoded successfully, or the description of a decode failure.  A header
/// section is an ordered sequence of these, ending at the first empty line
/// or at the first failure marker.
#[derive(Clone)]
pub enum LineOrError {
    Line(String),
    Error(String),
}

impl LineOrError {
    /// The text carried by the entry, whichever variant it is.
    pub fn text(&self) -> (r: &String)
        ensures
            r@ == self.text_view(),
    {
        match self {
            LineOrError::Line(line) => line,
            LineOrError::Error(err) => err,
        }
    }

    /// The text carried by the entry, as a sequence of characters.
    pub open spec fn text_view(&self) -> Seq<char> {
        match self {
            LineOrError::Line(line) => line@,
            LineOrError::Error(err) => err@,
        }
    }
}

} // verus!
