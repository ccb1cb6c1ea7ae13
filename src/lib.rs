//! A speech request and its compilation to an SSML document: validation of
//! the request's fields (pitch, rate, style degree) and a compiler with a fixed
//! element and attribute layout.
pub mod degree;
pub mod error;
pub mod grammar;
pub mod options;
pub mod prosody;
pub mod ssml;
