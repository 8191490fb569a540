//! HTTP wire handling: percent codec, request parsing, body decoding, and
//! response construction.

pub mod decoder;
pub mod request;
pub mod response;
pub mod shared;
