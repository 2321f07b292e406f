//! HTTP status codes.
use vstd::prelude::*;

use crate::boundary;
use crate::boundary::print_status;

verus! {

/// A status code, from 100 to 999.
#[derive(Debug, Clone, Copy)]
pub struct Status {
    code: u16,
}

impl View for Status {
    type V = u16;

    closed spec fn view(&self) -> u16 {
        self.code
    }
}

/// Whether a number is a status code.
pub open spec fn status_code(code: u16) -> bool {
    100 <= code <= 999
}

/// Whether a status says that the request succeeded.
pub open spec fn success(code: u16) -> bool {
    200 <= code <= 299
}

/// Whether a status lets another upstream be tried: too many requests, or an
/// error of the server.
pub open spec fn retriable(code: u16) -> bool {
    code == 429 || 500 <= code <= 599
}

/// Whether a status lets another upstream be tried.
pub fn is_retriable_status(status: u16) -> (r: bool)
    ensures
        r == retriable(status),
{
    status == 429 || (500 <= status && status <= 599)
}

impl Status {
    #[verifier::type_invariant]
    spec fn valid(self) -> bool {
        status_code(self.code)
    }

    /// The status code with the given number.
    pub fn new(code: u16) -> (r: Option<Status>)
        ensures
            match r {
                Some(status) => status_code(code) && status@ == code,
                None => !status_code(code),
            },
    {
        if 100 <= code && code <= 999 {
            Some(Status { code })
        } else {
            None
        }
    }

    /// The number of the status.
    pub fn code(&self) -> (r: u16)
        ensures
            r == self@,
            status_code(r),
    {
        proof {
            use_type_invariant(self);
        }
        self.code
    }

    /// Whether the request succeeded.
    pub fn is_success(&self) -> (r: bool)
        ensures
            r == success(self@),
    {
        200 <= self.code && self.code <= 299
    }

    /// The number of the status and its reason phrase.
    pub fn line(&self) -> (r: String)
        ensures
            boundary::status_line(self@) == Some(r@),
    {
        proof {
            use_type_invariant(self);
        }
        match print_status(self.code) {
            Some(line) => line,
            None => String::new(),
        }
    }
}

/// No status both succeeds and lets another upstream be tried.
pub proof fn success_is_not_retriable(code: u16)
    ensures
        !(success(code) && retriable(code)),
{
}

} // verus!
