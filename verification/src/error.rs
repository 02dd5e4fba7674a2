//! Error classification shared by the whole library.

use vstd::prelude::*;

use crate::data::error::{DecodeError, EncodeError};

verus! {

/// A coarse class for the errors the trading API reports, so that
/// callers can handle the common ones without matching raw codes.
#[derive(PartialEq, Eq, Structural, Clone, Copy, Debug)]
pub enum ErrorKind {
    /// Connection failed or was lost.
    Connection,
    /// Encryption or decryption failed.
    Encryption,
    /// A full login is required.
    LoginRequired,
    /// Login failed.
    LoginFailed,
    /// The account is not valid.
    InvalidAccount,
    /// An argument was not valid.
    InvalidInput,
    /// Received data was not valid.
    InvalidData,
    /// The request timed out.
    TimedOut,
    /// A request or registration limit was reached.
    LimitReached,
    /// Anything else.
    Other,
}

/// The class a vendor error code falls in.
pub open spec fn kind_of_code(code: int) -> ErrorKind {
    if code == -1 || code == -2 || code == -14 || code == -16 {
        ErrorKind::Connection
    } else if code == -15 || code == -17 {
        ErrorKind::Encryption
    } else if code == -7 || code == -8 {
        ErrorKind::LoginRequired
    } else if code == -18 || code == -19 {
        ErrorKind::LoginFailed
    } else if code == -9 || code == -12 || code == -24 || code == -25 {
        ErrorKind::InvalidAccount
    } else if code == -3 || code == -10 || code == -22 || code == -23 || code == -28 {
        ErrorKind::InvalidInput
    } else if code == -11 {
        ErrorKind::InvalidData
    } else if code == -4 {
        ErrorKind::TimedOut
    } else if code == -21 || code == -27 {
        ErrorKind::LimitReached
    } else {
        ErrorKind::Other
    }
}

impl ErrorKind {
    /// Classifies a negative vendor error code.
    pub fn from_code(code: i32) -> (r: ErrorKind)
        ensures
            r == kind_of_code(code as int),
    {
        if code == -1 || code == -2 || code == -14 || code == -16 {
            ErrorKind::Connection
        } else if code == -15 || code == -17 {
            ErrorKind::Encryption
        } else if code == -7 || code == -8 {
            ErrorKind::LoginRequired
        } else if code == -18 || code == -19 {
            ErrorKind::LoginFailed
        } else if code == -9 || code == -12 || code == -24 || code == -25 {
            ErrorKind::InvalidAccount
        } else if code == -3 || code == -10 || code == -22 || code == -23 || code == -28 {
            ErrorKind::InvalidInput
        } else if code == -11 {
            ErrorKind::InvalidData
        } else if code == -4 {
            ErrorKind::TimedOut
        } else if code == -21 || code == -27 {
            ErrorKind::LimitReached
        } else {
            ErrorKind::Other
        }
    }
}

/// Anything a request can fail with.
#[derive(Clone, Debug)]
pub enum Error {
    /// The trading API itself reported an error.
    XingApi {
        /// The negative vendor error code.
        code: i32,
        /// The vendor's message.
        message: String,
    },
    /// Encoding the request failed.
    Encode(EncodeError),
    /// Decoding the response failed.
    Decode(DecodeError),
    /// The request timed out.
    TimedOut,
}

impl Error {
    /// The class of this error: vendor errors by their code, encode
    /// errors as invalid input, decode errors as invalid data.
    pub fn kind(&self) -> (r: ErrorKind)
        ensures
            r == match self {
                Error::XingApi { code, .. } => kind_of_code(*code as int),
                Error::Encode(_) => ErrorKind::InvalidInput,
                Error::Decode(_) => ErrorKind::InvalidData,
                Error::TimedOut => ErrorKind::TimedOut,
            },
    {
        match self {
            Error::XingApi { code, .. } => ErrorKind::from_code(*code),
            Error::Encode(_) => ErrorKind::InvalidInput,
            Error::Decode(_) => ErrorKind::InvalidData,
            Error::TimedOut => ErrorKind::TimedOut,
        }
    }
}

/// An error of a raw system call, as a bare code.
#[derive(PartialEq, Eq, Structural, Clone, Copy, Debug)]
pub struct Win32Error {
    /// The raw system error code.
    pub code: u32,
}

impl Win32Error {
    /// Wraps a raw system error code.
    pub fn new(code: u32) -> (r: Win32Error)
        ensures
            r.code == code,
    {
        Win32Error { code }
    }

    /// The raw system error code.
    pub fn code(&self) -> (r: u32)
        ensures
            r == self.code,
    {
        self.code
    }
}

} // verus!
