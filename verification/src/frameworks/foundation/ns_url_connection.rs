//! `NSURLConnection`: the checks made before a request goes to the host's
//! network, how it is sent, which answers count as success, and the state
//! of a connection with a delegate. The transfer itself, and the Foundation
//! objects handed to the guest, are the caller's.
use crate::text::{eq_ignore_ascii_case, eq_ignore_ascii_case_spec};
use vstd::prelude::*;
use vstd::string::StringSliceAdditionalSpecFns;

verus! {

/// `NSURLErrorNotConnectedToInternet`, the code of the error reported for
/// any failed request.
pub const NS_URL_ERROR_NOT_CONNECTED_TO_INTERNET: i32 = -1009;

/// The domain of that error.
pub const NS_URL_ERROR_DOMAIN: &'static str = "NSURLErrorDomain";

/// The description of that error.
pub const NETWORK_ERROR_DESCRIPTION: &'static str = "The network connection was unavailable.";

/// The `User-Agent` sent with every request.
pub const USER_AGENT: &'static str = "RadekHLE9.0";

/// A guest object.
pub type Id = u32;

/// Why a request failed.
#[derive(Clone, Debug, PartialEq, Eq)]
pub enum RequestError {
    NilRequest,
    NetworkDisabled,
    NilUrl,
    EmptyUrl,
    /// The server answered with a status outside 200 to 399.
    HttpStatus(u16),
    /// The host's network failed, as it describes it.
    Transport(String),
}

/// The checks before a request is sent: there must be a request, network
/// access must be on, and the request must have a URL that is not empty.
pub fn check_request(request_is_nil: bool, network_access: bool, url_is_nil: bool, url: &str) -> (r:
    Result<(), RequestError>)
    ensures
        r == (if request_is_nil {
            Err(RequestError::NilRequest)
        } else if !network_access {
            Err(RequestError::NetworkDisabled)
        } else if url_is_nil {
            Err(RequestError::NilUrl)
        } else if url.spec_bytes().len() == 0 {
            Err(RequestError::EmptyUrl)
        } else {
            Ok(())
        }),
{
    if request_is_nil {
        Err(RequestError::NilRequest)
    } else if !network_access {
        Err(RequestError::NetworkDisabled)
    } else if url_is_nil {
        Err(RequestError::NilUrl)
    } else if url.as_bytes().len() == 0 {
        Err(RequestError::EmptyUrl)
    } else {
        Ok(())
    }
}

/// The HTTP method of a request: its own, or `GET` where it has none.
pub fn effective_method(method: &str) -> (r: &str)
    ensures
        r@ == if method.spec_bytes().len() == 0 {
            "GET"@
        } else {
            method@
        },
{
    if method.as_bytes().len() == 0 {
        "GET"
    } else {
        method
    }
}

/// Whether a request goes out as a plain call, without a body: a `GET`
/// (in any case) with nothing to send. Anything else sends its body.
pub fn is_plain_get(method: &str, body_length: usize) -> (r: bool)
    ensures
        r == (body_length == 0 && eq_ignore_ascii_case_spec(method.spec_bytes(), "GET".spec_bytes())),
{
    body_length == 0 && eq_ignore_ascii_case(method.as_bytes(), "GET".as_bytes())
}

/// An answer counts as success when its status lies from 200 to 399; any
/// other is a failure.
pub fn accept_status(status: u16) -> (r: Result<u16, RequestError>)
    ensures
        r == (if 200 <= status < 400 {
            Ok(status)
        } else {
            Err(RequestError::HttpStatus(status))
        }),
{
    if 200 <= status && status < 400 {
        Ok(status)
    } else {
        Err(RequestError::HttpStatus(status))
    }
}

/// The length of the `NSData` made from a body of `n` bytes: at most
/// `u32::MAX`.
pub fn data_length(n: usize) -> (r: u32)
    ensures
        r == if n > u32::MAX {
            u32::MAX
        } else {
            n as u32
        },
{
    if n as u64 > u32::MAX as u64 {
        u32::MAX
    } else {
        n as u32
    }
}

/// A connection made with a delegate: the delegate and request it keeps,
/// and whether it was cancelled.
#[derive(Clone, Copy, Debug, PartialEq, Eq)]
pub struct ConnectionState {
    pub delegate: Id,
    pub request: Id,
    pub cancelled: bool,
}

/// What `initWithRequest:delegate:startImmediately:` does.
#[derive(Clone, Copy, Debug, PartialEq, Eq)]
pub enum InitOutcome {
    /// A nil request: the connection is released and nil returned.
    Refused,
    /// The delegate and request are retained and kept; where the load
    /// starts at once, the request is scheduled for the next turn of the
    /// run loop.
    Started { state: ConnectionState, schedule: bool },
}

impl ConnectionState {
    /// `initWithRequest:delegate:startImmediately:`.
    pub fn init(request: Id, delegate: Id, start_immediately: bool) -> (r: InitOutcome)
        ensures
            r == (if request == 0 {
                InitOutcome::Refused
            } else {
                InitOutcome::Started {
                    state: ConnectionState { delegate, request, cancelled: false },
                    schedule: start_immediately,
                }
            }),
    {
        if request == 0 {
            InitOutcome::Refused
        } else {
            InitOutcome::Started {
                state: ConnectionState { delegate, request, cancelled: false },
                schedule: start_immediately,
            }
        }
    }

    /// `cancel`: no callback is delivered afterwards.
    pub fn cancel(&mut self)
        ensures
            *final(self) == (ConnectionState { cancelled: true, ..*old(self) }),
    {
        self.cancelled = true;
    }

    /// Whom a scheduled delivery reaches: the delegate and request, unless
    /// the connection was cancelled or has no delegate.
    pub fn delivery(&self) -> (r: Option<(Id, Id)>)
        ensures
            r == (if self.cancelled || self.delegate == 0 {
                None
            } else {
                Some((self.delegate, self.request))
            }),
    {
        if self.cancelled || self.delegate == 0 {
            None
        } else {
            Some((self.delegate, self.request))
        }
    }
}

} // verus!
