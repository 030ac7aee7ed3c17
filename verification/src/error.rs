//! Errors of the path server and the codes under which they are reported.

use vstd::prelude::*;

use crate::text::{chars_of, string_of};

verus! {

pub type PathServerResult<T> = Result<T, PathServerError>;

#[derive(Debug)]
pub enum PathServerError {
    /// UTF-8/UTF-16 encoding/decoding error (code 1000)
    EncodingError(String),
    /// IO error, with its description (code 1001)
    IoError(String),
    /// code 1002
    Unsupported(String),
    /// code 1003
    ParseError(String),
    /// code 1004
    InvalidPath(String),
    /// code 1005
    UserConfigError(String),
    /// code 2000
    Unknown(String),
}

/// The code under which an error of each kind is reported.
pub open spec fn error_code(e: PathServerError) -> i64 {
    match e {
        PathServerError::EncodingError(_) => 1000,
        PathServerError::IoError(_) => 1001,
        PathServerError::Unsupported(_) => 1002,
        PathServerError::ParseError(_) => 1003,
        PathServerError::InvalidPath(_) => 1004,
        PathServerError::UserConfigError(_) => 1005,
        PathServerError::Unknown(_) => 2000,
    }
}

/// The short title of an error of each kind.
pub open spec fn error_title(e: PathServerError) -> Seq<char> {
    match e {
        PathServerError::EncodingError(_) => "Encoding error"@,
        PathServerError::IoError(_) => "IO error"@,
        PathServerError::Unsupported(_) => "Unsupported"@,
        PathServerError::ParseError(_) => "Parse error"@,
        PathServerError::InvalidPath(_) => "Invalid path"@,
        PathServerError::UserConfigError(_) => "User config error"@,
        PathServerError::Unknown(_) => "Unknown error"@,
    }
}

/// The text carried by an error.
pub open spec fn error_detail(e: PathServerError) -> Seq<char> {
    match e {
        PathServerError::EncodingError(m) => m@,
        PathServerError::IoError(m) => m@,
        PathServerError::Unsupported(m) => m@,
        PathServerError::ParseError(m) => m@,
        PathServerError::InvalidPath(m) => m@,
        PathServerError::UserConfigError(m) => m@,
        PathServerError::Unknown(m) => m@,
    }
}

impl PathServerError {
    /// The code under which this error is reported to the client.
    pub fn code(&self) -> (c: i64)
        ensures
            c == error_code(*self),
    {
        match self {
            PathServerError::EncodingError(_) => 1000,
            PathServerError::IoError(_) => 1001,
            PathServerError::Unsupported(_) => 1002,
            PathServerError::ParseError(_) => 1003,
            PathServerError::InvalidPath(_) => 1004,
            PathServerError::UserConfigError(_) => 1005,
            PathServerError::Unknown(_) => 2000,
        }
    }

    /// The short title under which this error is reported to the client.
    pub fn title(&self) -> (t: &'static str)
        ensures
            t@ == error_title(*self),
    {
        match self {
            PathServerError::EncodingError(_) => "Encoding error",
            PathServerError::IoError(_) => "IO error",
            PathServerError::Unsupported(_) => "Unsupported",
            PathServerError::ParseError(_) => "Parse error",
            PathServerError::InvalidPath(_) => "Invalid path",
            PathServerError::UserConfigError(_) => "User config error",
            PathServerError::Unknown(_) => "Unknown error",
        }
    }

    /// The text this error carries.
    pub fn detail(&self) -> (d: String)
        ensures
            d@ == error_detail(*self),
    {
        let m = match self {
            PathServerError::EncodingError(m) => m,
            PathServerError::IoError(m) => m,
            PathServerError::Unsupported(m) => m,
            PathServerError::ParseError(m) => m,
            PathServerError::InvalidPath(m) => m,
            PathServerError::UserConfigError(m) => m,
            PathServerError::Unknown(m) => m,
        };
        string_of(chars_of(m.as_str()).as_slice())
    }

    /// The description of this error: `<title>: <detail>` (with "Parse error",
    /// "Unsupported" and the others as titles).
    pub fn describe(&self) -> (s: String)
        ensures
            s@ == error_title(*self) + ": "@ + error_detail(*self),
    {
        let v = chars_of(self.title());
        let sep = chars_of(": ");
        let d = chars_of(self.detail().as_str());
        let mut all = crate::text::concat_chars(v.as_slice(), sep.as_slice());
        all = crate::text::concat_chars(all.as_slice(), d.as_slice());
        string_of(all.as_slice())
    }
}

} // verus!
