//! The engine's error type.
use vstd::prelude::*;

verus! {

#[verifier::external_type_specification]
#[verifier::external_body]
pub struct ExUrlParseError(url::ParseError);

#[verifier::external_type_specification]
#[verifier::external_body]
pub struct ExIoError(std::io::Error);

#[verifier::external_type_specification]
#[verifier::external_body]
pub struct ExJsonError(serde_json::Error);

/// Why an engine operation failed.
#[derive(Debug)]
pub enum BrowserError {
    Http(String),
    UrlParse(url::ParseError),
    Parse(String),
    JavaScript(String),
    Cdp(String),
    Navigation(String),
    /// Milliseconds waited.
    Timeout(u64),
    NotFound(String),
    Bridge(String),
    Io(std::io::Error),
    Json(serde_json::Error),
}

pub type BrowserResult<T> = Result<T, BrowserError>;

} // verus!
