//! Server responses: login results, query responses and real-time
//! events, each carrying a code, a message, and decoded data where the
//! response has any.

use vstd::prelude::*;

use crate::data::Data;
use crate::data::error::DecodeError;
use crate::text;

verus! {

/// Whether a response reports success: a numeric code below 1000, or,
/// for responses that carry no message at all, an empty code and
/// message.
pub open spec fn is_ok_resp(code: Seq<char>, message: Seq<char>) -> bool {
    match text::parse_i32(code) {
        Some(v) => 0 <= v < 1000,
        None => code.len() == 0 && message.len() == 0,
    }
}

/// A response message: its code and text, and whether it means
/// success.
pub trait Message {
    /// The response code; empty when the response carries none.
    fn code(&self) -> &str;

    /// The response message; empty when the response carries none.
    fn message(&self) -> &str;

    /// Whether the response reports success.
    fn is_ok(&self) -> bool;

    /// Whether the response reports failure.
    fn is_err(&self) -> bool;
}

/// The server's answer to a login request.
#[derive(Clone, Debug)]
pub struct LoginResponse {
    code: String,
    message: String,
}

impl LoginResponse {
    /// Wraps a login response's code and message.
    pub fn new(code: String, message: String) -> (r: LoginResponse)
        ensures
            r.spec_code() == code@,
            r.spec_message() == message@,
    {
        LoginResponse { code, message }
    }

    pub closed spec fn spec_code(&self) -> Seq<char> {
        self.code@
    }

    pub closed spec fn spec_message(&self) -> Seq<char> {
        self.message@
    }
}

impl Message for LoginResponse {
    fn code(&self) -> (r: &str)
        ensures
            r@ == self.spec_code(),
    {
        self.code.as_str()
    }

    fn message(&self) -> (r: &str)
        ensures
            r@ == self.spec_message(),
    {
        self.message.as_str()
    }

    fn is_ok(&self) -> (r: bool)
        ensures
            r == is_ok_resp(self.spec_code(), self.spec_message()),
    {
        resp_ok(&self.code, &self.message)
    }

    fn is_err(&self) -> (r: bool)
        ensures
            r == !is_ok_resp(self.spec_code(), self.spec_message()),
    {
        !self.is_ok()
    }
}

/// The server's answer to a query request.
#[derive(Debug)]
pub struct QueryResponse {
    code: String,
    message: String,
    elapsed_millis: u64,
    continue_key: Option<String>,
    data: Option<Result<Data, DecodeError>>,
}

impl QueryResponse {
    /// Wraps a query response.
    pub fn new(
        code: String,
        message: String,
        elapsed_millis: u64,
        continue_key: Option<String>,
        data: Option<Result<Data, DecodeError>>,
    ) -> (r: QueryResponse)
        ensures
            r.spec_code() == code@,
            r.spec_message() == message@,
            r.spec_elapsed() == elapsed_millis,
            r.spec_continue_key() == continue_key,
            r.spec_data() == data,
    {
        QueryResponse { code, message, elapsed_millis, continue_key, data }
    }

    pub closed spec fn spec_code(&self) -> Seq<char> {
        self.code@
    }

    pub closed spec fn spec_message(&self) -> Seq<char> {
        self.message@
    }

    pub closed spec fn spec_elapsed(&self) -> u64 {
        self.elapsed_millis
    }

    pub closed spec fn spec_continue_key(&self) -> Option<String> {
        self.continue_key
    }

    pub closed spec fn spec_data(&self) -> Option<Result<Data, DecodeError>> {
        self.data
    }

    /// Milliseconds between the request and the server's answer.
    pub fn elapsed(&self) -> (r: u64)
        ensures
            r == self.spec_elapsed(),
    {
        self.elapsed_millis
    }

    /// The continuation key for follow-up queries, when the server gave
    /// one.
    pub fn continue_key(&self) -> (r: Option<&String>)
        ensures
            match r {
                Some(k) => self.spec_continue_key() is Some && self.spec_continue_key()->0 == *k,
                None => self.spec_continue_key() is None,
            },
    {
        match &self.continue_key {
            Some(k) => Some(k),
            None => None,
        }
    }

    /// The decoded response data, or the decode error.
    pub fn data(&self) -> (r: Result<&Data, &DecodeError>)
        requires
            self.spec_data() is Some,
        ensures
            match r {
                Ok(d) => self.spec_data()->0 is Ok && *d == self.spec_data()->0->Ok_0,
                Err(e) => self.spec_data()->0 is Err && *e == self.spec_data()->0->Err_0,
            },
    {
        match &self.data {
            Some(Ok(d)) => Ok(d),
            Some(Err(e)) => Err(e),
            None => {
                // Ruled out by the caller's obligation above.
                assert(false);
                Err(&DecodeError::MismatchDataLength)
            },
        }
    }
}

impl Message for QueryResponse {
    fn code(&self) -> (r: &str)
        ensures
            r@ == self.spec_code(),
    {
        self.code.as_str()
    }

    fn message(&self) -> (r: &str)
        ensures
            r@ == self.spec_message(),
    {
        self.message.as_str()
    }

    fn is_ok(&self) -> (r: bool)
        ensures
            r == is_ok_resp(self.spec_code(), self.spec_message()),
    {
        resp_ok(&self.code, &self.message)
    }

    fn is_err(&self) -> (r: bool)
        ensures
            r == !is_ok_resp(self.spec_code(), self.spec_message()),
    {
        !self.is_ok()
    }
}

/// One real-time event from the server.
#[derive(Debug)]
pub struct RealResponse {
    key: String,
    reg_key: String,
    data: Result<Data, DecodeError>,
}

impl RealResponse {
    /// Wraps a real-time event.
    pub fn new(key: String, reg_key: String, data: Result<Data, DecodeError>) -> (r: RealResponse)
        ensures
            r.spec_key() == key@,
            r.spec_reg_key() == reg_key@,
            r.spec_data() == data,
    {
        RealResponse { key, reg_key, data }
    }

    pub closed spec fn spec_key(&self) -> Seq<char> {
        self.key@
    }

    pub closed spec fn spec_reg_key(&self) -> Seq<char> {
        self.reg_key@
    }

    pub closed spec fn spec_data(&self) -> Result<Data, DecodeError> {
        self.data
    }

    /// The ticker key the event arrived for.
    pub fn key(&self) -> (r: &str)
        ensures
            r@ == self.spec_key(),
    {
        self.key.as_str()
    }

    /// The key the subscription was registered under.
    pub fn reg_key(&self) -> (r: &str)
        ensures
            r@ == self.spec_reg_key(),
    {
        self.reg_key.as_str()
    }

    /// The decoded event data, or the decode error.
    pub fn data(&self) -> (r: Result<&Data, &DecodeError>)
        ensures
            match r {
                Ok(d) => self.spec_data() is Ok && *d == self.spec_data()->Ok_0,
                Err(e) => self.spec_data() is Err && *e == self.spec_data()->Err_0,
            },
    {
        match &self.data {
            Ok(d) => Ok(d),
            Err(e) => Err(e),
        }
    }
}

/// Whether a code/message pair reports success.
fn resp_ok(code: &String, message: &String) -> (r: bool)
    ensures
        r == is_ok_resp(code@, message@),
{
    match text::parse_i32_x(code.as_str()) {
        Some(v) => 0 <= v && v < 1000,
        None => code.as_str().unicode_len() == 0 && message.as_str().unicode_len() == 0,
    }
}

} // verus!
