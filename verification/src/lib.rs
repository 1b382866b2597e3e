//! A tiny HTTP/1.1 responder: it reads the request line and the header lines
//! of a request and answers one of three fixed routes.
//!
//! Every function is stated over the characters of its input (`Seq<char>`)
//! and proved against that statement.

pub mod method;
pub mod request;
pub mod response;
pub mod text;
