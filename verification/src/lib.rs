//! A small HTTP/1.1 engine that works directly on bytes: it frames one
//! request out of a byte stream, parses it, routes its path, decodes
//! `multipart/form-data` bodies, and decides what to answer.
//!
//! Text is kept in its encoded form throughout: a path, a header name or
//! a field value is the sequence of bytes that stood on the wire.

pub mod account;
pub mod api;
pub mod bytes;
pub mod dispatch;
pub mod feedback;
pub mod form;
pub mod framer;
pub mod headers;
pub mod multipart;
pub mod number;
pub mod request;
pub mod response;
pub mod router;
pub mod template;
pub mod upload;
pub mod user;
