//! The closed error taxonomy of the codec.
//!
//! Every parsing step reports failure through [`HTTPError`]; no error is
//! raised as an uncontrolled fault.

use vstd::prelude::*;

verus! {

/// Everything that can go wrong while decoding one request.
#[derive(Clone, Copy, Debug, PartialEq, Eq, Structural)]
pub enum HTTPError {
    InvalidPath,
    InvalidRequestType,
    InvalidVersion,
    InvalidRequestLine,
    InvalidHeader,
    InvalidContentType,
    InvalidContentLength,
    InvalidContent,
    FailedToObtainIP,
}

/// The diagnostic line for an error, newline included, as it is placed
/// into the body of a `400` response.
pub open spec fn spec_message(e: HTTPError) -> Seq<char> {
    match e {
        HTTPError::InvalidRequestLine => "Request line was invalid\n"@,
        HTTPError::InvalidRequestType => "Invalid or missing request type\n"@,
        HTTPError::InvalidVersion => "Invalid or missing HTTP version\n"@,
        HTTPError::InvalidPath => "Invalid or missing path\n"@,
        HTTPError::InvalidHeader => "Invalid or missing header\n"@,
        HTTPError::InvalidContentType => "Invalid or missing Content-Type\n"@,
        HTTPError::InvalidContentLength => "Invalid or missing Content-Length\n"@,
        HTTPError::InvalidContent => "Content to short for Content-Length or invalid Content\n"@,
        HTTPError::FailedToObtainIP => "Unable to get IP address of the client\n"@,
    }
}

impl HTTPError {
    /// The human-readable description of the error, one line with a
    /// trailing newline.
    pub fn message(&self) -> (r: String)
        ensures
            r@ == spec_message(*self),
    {
        match self {
            HTTPError::InvalidRequestLine => "Request line was invalid\n".to_owned(),
            HTTPError::InvalidRequestType => "Invalid or missing request type\n".to_owned(),
            HTTPError::InvalidVersion => "Invalid or missing HTTP version\n".to_owned(),
            HTTPError::InvalidPath => "Invalid or missing path\n".to_owned(),
            HTTPError::InvalidHeader => "Invalid or missing header\n".to_owned(),
            HTTPError::InvalidContentType => "Invalid or missing Content-Type\n".to_owned(),
            HTTPError::InvalidContentLength => "Invalid or missing Content-Length\n".to_owned(),
            HTTPError::InvalidContent => "Content to short for Content-Length or invalid Content\n".to_owned(),
            HTTPError::FailedToObtainIP => "Unable to get IP address of the client\n".to_owned(),
        }
    }
}

} // verus!
