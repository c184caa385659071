//! Search-result presentation logic for a file-search front end: a parser for
//! marker-delimited highlight strings, a width-bounded text layout engine, a
//! single-page result cache, and the session decisions around them.

mod strings;

pub mod cache;
pub mod format;
pub mod highlight;
pub mod layout;
pub mod session;
