//! Error taxonomy for the aggregation pipeline.
//!
//! Per-item errors are absorbed at each adapter boundary and turned into
//! "no result" or an "uncertain" verdict; only configuration errors are
//! fatal.  Payloads carried from outside services are kept as plain text.

use vstd::prelude::*;

verus! {

/// Error raised by a pipeline component.
#[derive(Debug, Clone)]
pub enum GscholarError {
    /// Browser automation failed.
    Browser(String),
    /// Network or HTTP transport failed; retryable.
    Network(String),
    /// A response could not be parsed.
    Parse(String),
    /// The remote service asked the caller to back off for this many seconds.
    RateLimited(u64),
    /// The remote service answered with an application-level error.
    Api { code: i32, message: String },
    /// The search page presented a CAPTCHA challenge.
    Captcha,
    /// File input or output failed.
    Io(String),
    /// JSON encoding or decoding failed.
    Json(String),
    /// The run is misconfigured; fatal before any network call.
    Config(String),
    /// An input failed validation.
    Validation(String),
}

/// Extension trait that converts an absent value into a parse error.
pub trait OptionExt<T> {
    /// Replace `None` with `GscholarError::Parse` carrying `msg`.
    fn ok_or_parse(self, msg: &str) -> core::result::Result<T, GscholarError>;
}

impl<T> OptionExt<T> for Option<T> {
    fn ok_or_parse(self, msg: &str) -> (r: core::result::Result<T, GscholarError>)
        ensures
            self is Some ==> r is Ok && r->Ok_0 == self->0,
            self is None ==> r is Err && r->Err_0 is Parse && r->Err_0->Parse_0@ == msg@,
    {
        match self {
            Some(v) => Ok(v),
            None => Err(GscholarError::Parse(msg.to_owned())),
        }
    }
}

} // verus!
