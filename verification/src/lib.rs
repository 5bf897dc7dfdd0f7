//! A client-side HTTP cookie jar for an outbound request/response pipeline.
//!
//! The jar reads `Set-Cookie` response header values, stores accepted cookies
//! keyed by `(domain, path, name)`, and answers matching queries so that a
//! `Cookie` request header can be attached to later requests to the same
//! origin.  Cookie-attribute parsing, validation and matching are delegated
//! to the `cookie_store` crate; everything this library promises about that
//! engine is collected in the `engine` module.  The surrounding async
//! transport glue (the actual middleware hook of an HTTP client) lives
//! outside this crate and only hands plain values in and out.

pub mod engine;
pub mod header;
pub mod jar;
pub mod laws;
pub mod record;

pub use jar::CookieMiddleware;
pub use record::CookieRecord;

