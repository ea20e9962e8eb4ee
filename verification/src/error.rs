use vstd::prelude::*;
use vstd::string::StringExecFns;

verus! {

/// Failures that channel operations surface to the caller.  Store and
/// transport faults are wrapped by the surrounding application, not here.
#[derive(Debug, Clone, Copy, PartialEq, Eq, Structural)]
pub enum ChannelError {
    /// No record exists under the requested identifier.
    ChannelNotFound,
    /// The channel is password protected and the provided password is
    /// missing or does not match.
    InvalidChannelPassword,
    /// The aggregate size of text and decoded file bytes exceeds the
    /// configured maximum.
    PayloadTooLarge,
    /// A file's content is not valid base64 text.
    InvalidFileData,
    /// No attachment with the requested file identifier exists.
    FileNotFound,
}

pub open spec fn spec_error_message(e: ChannelError) -> Seq<char> {
    match e {
        ChannelError::ChannelNotFound => "channel not found"@,
        ChannelError::InvalidChannelPassword => "invalid channel password"@,
        ChannelError::PayloadTooLarge => "channel payload exceeds allowed size"@,
        ChannelError::InvalidFileData => "invalid file data encoding"@,
        ChannelError::FileNotFound => "file not found"@,
    }
}

/// HTTP status that the service boundary reports for each error kind.
pub open spec fn spec_error_status(e: ChannelError) -> u16 {
    match e {
        ChannelError::ChannelNotFound => 404,
        ChannelError::InvalidChannelPassword => 401,
        ChannelError::PayloadTooLarge => 400,
        ChannelError::InvalidFileData => 400,
        ChannelError::FileNotFound => 404,
    }
}

impl ChannelError {
    /// Human-readable description of the failure.
    pub fn message(&self) -> (r: String)
        ensures
            r@ == spec_error_message(*self),
    {
        match self {
            ChannelError::ChannelNotFound => String::from_str("channel not found"),
            ChannelError::InvalidChannelPassword => String::from_str("invalid channel password"),
            ChannelError::PayloadTooLarge => {
                String::from_str("channel payload exceeds allowed size")
            },
            ChannelError::InvalidFileData => String::from_str("invalid file data encoding"),
            ChannelError::FileNotFound => String::from_str("file not found"),
        }
    }

    /// Status code for the service boundary: not-found, auth and size
    /// failures map to distinct, non-overlapping outcomes.
    pub fn http_status(&self) -> (r: u16)
        ensures
            r == spec_error_status(*self),
    {
        match self {
            ChannelError::ChannelNotFound => 404,
            ChannelError::InvalidChannelPassword => 401,
            ChannelError::PayloadTooLarge => 400,
            ChannelError::InvalidFileData => 400,
            ChannelError::FileNotFound => 404,
        }
    }
}

/// Body of an error reply at the service boundary.
pub struct ErrorResponse {
    pub message: String,
}

impl ErrorResponse {
    /// Builds the reply body that reports the given failure.
    pub fn from_error(e: &ChannelError) -> (r: ErrorResponse)
        ensures
            r.message@ == spec_error_message(*e),
    {
        ErrorResponse { message: e.message() }
    }
}

} // verus!
